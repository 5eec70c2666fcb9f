use syncmob::config::{Config, Machine, Paths};
use syncmob::engine::commands::TextStep;
use syncmob::engine::{Action, MAX_CONNECTIONS};
use syncmob::net::discovery::{DiscoveredPeer, Interface, MAX_PEERS, PEER_TTL};
use syncmob::proto::{TextMsg, TransferId, DEFAULT_TCP_PORT};
use syncmob::security::{device_id, Identity, TrustStore};
use syncmob::util::{IpAddr, SocketAddr};
use syncmob::{Engine, EngineEvent};

fn machine() -> Machine {
    Machine { computer_name: Some("  DESK\n".to_string()), host_name: None, downloads: None }
}

fn engine() -> Engine {
    Engine::start(
        Identity::generate().unwrap(),
        Config::default_for(&machine()),
        Paths::discover(None),
        TrustStore::new(),
        "desktop".to_string(),
    )
}

fn peer(n: u8, name: &str) -> DiscoveredPeer {
    let key = vec![n; 32];
    DiscoveredPeer {
        device_id: device_id(&key),
        public_key: key,
        name: name.to_string(),
        platform: "test".to_string(),
        addr: SocketAddr { ip: IpAddr::V4(0xc0a8_0100 + n as u32), port: 45821 },
    }
}

#[test]
fn defaults_and_paths() {
    let c = Config::default_for(&machine());
    assert_eq!(c.device_name, "DESK");
    assert_eq!(c.tcp_port, DEFAULT_TCP_PORT);
    assert_eq!(c.download_dir, "./SyncMob");
    assert_eq!(c.max_file_size, 8 * 1024 * 1024 * 1024);
    assert!(c.lan_only && c.accept_incoming && c.allow_new_pairings && c.discovery_enabled);
    let p = Paths::discover(Some("/data"));
    assert_eq!(p.identity(), "/data/identity.json");
    assert_eq!(p.trust(), "/data/trust.json");
    assert_eq!(p.config(), "/data/config.json");
    assert_eq!(p.incoming(), "/data/incoming");
    assert_eq!(Paths::discover(None).root, ".syncmob");
    let nameless = Machine { computer_name: None, host_name: None, downloads: Some("/d".into()) };
    assert_eq!(Config::default_for(&nameless).device_name, "SyncMob PC");
    assert_eq!(Config::load(None, &nameless).download_dir, "/d/SyncMob");
}

#[test]
fn the_listener_is_announced() {
    let mut e = engine();
    assert!(e.listening(DEFAULT_TCP_PORT).is_empty());
    assert_eq!(e.port(), DEFAULT_TCP_PORT);
    e.config.accept_incoming = false;
    let acts = e.listening(7);
    assert!(matches!(
        &acts[0],
        Action::Emit(EngineEvent::Notice(m)) if *m == format!("Порт {DEFAULT_TCP_PORT} занят, слушаем 7")
    ));
    assert!(matches!(
        &acts[1],
        Action::Emit(EngineEvent::Notice(m)) if m == "Входящие подключения отключены"
    ));
    let acts = e.discovering(Err("busy".to_string()));
    assert!(matches!(
        &acts[0],
        Action::Emit(EngineEvent::Notice(m))
            if m == "Обнаружение в сети недоступно (busy); подключайтесь по адресу вручную"
    ));
    assert!(e.discovering(Ok(())).is_empty());
    assert!(e.discovery.is_some());
}

#[test]
fn peers_come_and_go() {
    let mut e = engine();
    assert_eq!(e.on_beacon(peer(2, "zeta"), 10).len(), 1);
    assert_eq!(e.on_beacon(peer(1, "alpha"), 10).len(), 1);
    assert_eq!(e.on_beacon(peer(1, "beta"), PEER_TTL).len(), 0);
    let names: Vec<String> = e.peers().into_iter().map(|p| p.name).collect();
    assert_eq!(names, ["beta", "zeta"]);
    assert!(!e.peers()[0].paired);
    e.trust.add(&[1u8; 32], "x").unwrap();
    assert!(e.peers()[0].paired);
    assert!(e.expire_peers(PEER_TTL + 9).is_empty());
    let acts = e.expire_peers(PEER_TTL + 10);
    assert_eq!(acts.len(), 1);
    assert!(matches!(
        &acts[0],
        Action::Emit(EngineEvent::PeerLost(d)) if *d == device_id(&[2u8; 32])
    ));
    assert_eq!(e.peers().len(), 1);
    for n in 0..200u8 {
        e.on_beacon(peer(n, "p"), 20);
    }
    assert_eq!(e.peers().len(), MAX_PEERS);
}

#[test]
fn only_local_addresses_are_dialled() {
    let mut e = engine();
    let far = IpAddr::V4(0x0808_0808);
    match e.dial(far, "8.8.8.8:1") {
        Err(Action::Emit(EngineEvent::Error(m))) => assert_eq!(
            m,
            "Адрес 8.8.8.8:1 вне локальной сети (включите доступ вне LAN в настройках)"
        ),
        _ => panic!("dialled"),
    }
    assert!(!e.admits(far, 1));
    e.config.lan_only = false;
    assert!(e.dial(far, "8.8.8.8:1").is_ok());
    assert!(e.admits(far, 1));
    e.config.accept_incoming = false;
    assert!(!e.admits(far, 1));
    assert_eq!(MAX_CONNECTIONS, 16);
}

#[test]
fn handshakes_are_limited_per_address() {
    let mut e = engine();
    let ip = IpAddr::V4(0xc0a8_0105);
    let n = (0..30).filter(|_| e.can_count(ip, 5) && e.admits(ip, 5)).count();
    assert_eq!(n, 10);
}

#[test]
fn dialling_needs_a_known_peer_or_a_link() {
    let mut e = engine();
    let d = device_id(&[3u8; 32]);
    assert!(matches!(
        &e.connect(d)[0],
        Action::Emit(EngineEvent::Error(m)) if m == "Устройство не найдено в сети"
    ));
    e.on_beacon(peer(3, "n"), 1);
    assert!(matches!(
        &e.connect(d)[0],
        Action::Dial { expect_key: Some(k), .. } if *k == vec![3u8; 32]
    ));
    let ifaces = [Interface { loopback: false, ip: IpAddr::V4(0x0a00_0007), broadcast: None }];
    e.listening(4711);
    let link = e.pairing_uri(&ifaces);
    match e.dial_pairing_uri(&link, Some(IpAddr::V4(0x0a00_0007))) {
        Ok(Action::Dial { addr, expect_key }) => {
            assert_eq!(addr.port, 4711);
            assert_eq!(expect_key, Some(e.public_key()));
        }
        _ => panic!("no dial"),
    }
    assert!(e.dial_pairing_uri("nonsense", None).is_err());
    assert!(matches!(
        Engine::unreachable("h", "w"),
        Action::Emit(EngineEvent::Error(m)) if m == "Не удалось подключиться к h: w"
    ));
    assert!(matches!(
        Engine::handshake_failed("h", "w"),
        Action::Emit(EngineEvent::Error(m)) if m == "Рукопожатие с h не удалось: w"
    ));
    assert!(matches!(
        Engine::trust_not_saved("w"),
        Action::Emit(EngineEvent::Error(m)) if m == "Не удалось записать список доверия: w"
    ));
}

#[test]
fn texts_need_content_and_a_receiver() {
    let e = engine();
    let d = device_id(&[3u8; 32]);
    assert!(matches!(e.send_text(d, "  \n "), TextStep::Nothing));
    match e.send_text(d, "hi") {
        TextStep::Refused(Action::Emit(EngineEvent::Error(m))) => {
            assert_eq!(m, "Нет соединения с устройством")
        }
        _ => panic!("sent"),
    }
    let m = TextMsg { id: TransferId::random(), ts: 1, text: "t".to_string() };
    assert!(matches!(
        Engine::text_sent(d, m, Err("broken".to_string())),
        Action::Emit(EngineEvent::Error(m)) if m == "Ошибка отправки: broken"
    ));
    assert!(e.disconnect(d).is_empty());
}

#[test]
fn settings_reach_the_announcements() {
    let mut e = engine();
    e.discovering(Ok(()));
    let mut c = e.config();
    c.device_name = "Laptop".to_string();
    let acts = e.update_config(c);
    assert!(matches!(acts[0], Action::SaveConfig));
    let raw = e.discovery.as_ref().unwrap().payload().unwrap();
    assert!(String::from_utf8(raw).unwrap().contains("\"Laptop\""));
    assert!(e.shutdown().is_empty());
    assert!(!e.running);
    assert!(!e.discovery.as_ref().unwrap().is_running());
}

#[test]
fn unknown_devices_cannot_be_forgotten() {
    let mut e = engine();
    let d = device_id(&[3u8; 32]);
    assert!(e.forget(d).is_empty());
    assert_eq!(e.set_auto_accept(d, true).len(), 1);
    assert_eq!(e.set_blocked(d, true).len(), 1);
    e.trust.add(&[3u8; 32], "n").unwrap();
    assert_eq!(e.key_for(d), Some(vec![3u8; 32]));
    assert_eq!(e.set_auto_accept(d, true).len(), 2);
    assert!(e.trusted()[0].auto_accept_files);
    assert_eq!(e.forget(d).len(), 2);
    assert!(e.trusted().is_empty());
}

#[test]
fn identity_of_the_engine() {
    let e = engine();
    assert_eq!(e.device_id(), device_id(&e.public_key()));
    assert_eq!(e.fingerprint(), syncmob::security::fingerprint(&e.public_key()));
    assert!(e.connections().is_empty());
    assert!(e.active_transfers().is_empty());
}
