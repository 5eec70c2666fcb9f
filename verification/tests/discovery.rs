use base64::engine::general_purpose::STANDARD;
use base64::Engine;
use serde_json::Value;
use syncmob::net::discovery::{
    announce_targets, encode_beacon, interface_broadcasts, join_multicast, local_ipv4, sleep_step,
    validate_beacon, BeaconInfo, DiscoveredPeer, Discovery, Interface, RateLimiter,
    RATE_PER_SOURCE,
};
use syncmob::proto::{Beacon, BEACON_MAGIC, DISCOVERY_PORT, MAX_BEACON_BYTES};
use syncmob::security::device_id;
use syncmob::util::{IpAddr, SocketAddr};

fn addr(a: u8, b: u8, c: u8, d: u8) -> IpAddr {
    IpAddr::V4(u32::from_be_bytes([a, b, c, d]))
}

fn lan_src() -> SocketAddr {
    SocketAddr { ip: addr(192, 168, 1, 50), port: 45820 }
}

fn json_of(b: &Beacon) -> Vec<u8> {
    let mut m = serde_json::Map::new();
    m.insert("m".into(), Value::from(b.m.clone()));
    m.insert("v".into(), Value::from(b.v));
    m.insert("pk".into(), Value::from(b.pk.clone()));
    m.insert("name".into(), Value::from(b.name.clone()));
    m.insert("port".into(), Value::from(b.port));
    m.insert("platform".into(), Value::from(b.platform.clone()));
    serde_json::to_vec(&Value::Object(m)).unwrap()
}

fn read(raw: &[u8]) -> Option<Beacon> {
    let v: Value = serde_json::from_slice(raw).ok()?;
    let text = |k: &str| v.get(k).and_then(|x| x.as_str()).map(|s| s.to_string());
    let number = |k: &str| v.get(k).and_then(|x| x.as_u64()).map(|n| n as u16);
    Some(Beacon {
        m: text("m")?,
        v: number("v")?,
        pk: text("pk")?,
        name: text("name")?,
        port: number("port")?,
        platform: text("platform").unwrap_or_default(),
    })
}

fn validate(raw: &[u8], src: SocketAddr, own: &[u8]) -> Option<DiscoveredPeer> {
    validate_beacon(raw, read(raw), src, own)
}

fn beacon_bytes(pk: &[u8], name: &str, port: u16) -> Vec<u8> {
    json_of(&Beacon {
        m: BEACON_MAGIC.to_string(),
        v: 1,
        pk: STANDARD.encode(pk),
        name: name.to_string(),
        port,
        platform: "test".to_string(),
    })
}

#[test]
fn accepts_a_well_formed_beacon() {
    let raw = beacon_bytes(&[9u8; 32], "Phone", 45821);
    let p = validate(&raw, lan_src(), &[1u8; 32]).unwrap();
    assert_eq!(p.name, "Phone");
    assert_eq!(p.public_key, vec![9u8; 32]);
    assert_eq!(p.addr.port, 45821);
    // The address always comes from the UDP source, never from the payload.
    assert_eq!(p.addr.ip, lan_src().ip);
    assert_eq!(p.device_id, device_id(&[9u8; 32]));
}

#[test]
fn rejects_non_lan_sources() {
    let raw = beacon_bytes(&[9u8; 32], "Phone", 45821);
    let src = SocketAddr { ip: addr(8, 8, 8, 8), port: 45820 };
    assert!(validate(&raw, src, &[1u8; 32]).is_none());
}

#[test]
fn rejects_own_beacon() {
    let raw = beacon_bytes(&[1u8; 32], "Me", 45821);
    assert!(validate(&raw, lan_src(), &[1u8; 32]).is_none());
}

#[test]
fn rejects_malformed_payloads() {
    assert!(validate(b"not json", lan_src(), &[1u8; 32]).is_none());
    assert!(validate(&[], lan_src(), &[1u8; 32]).is_none());
    assert!(validate(&vec![b'{'; MAX_BEACON_BYTES + 1], lan_src(), &[1u8; 32]).is_none());

    // Wrong magic / version / port / key length.
    let mut b = read(&beacon_bytes(&[9u8; 32], "x", 1)).unwrap();
    b.m = "OTHER".into();
    assert!(validate(&json_of(&b), lan_src(), &[1u8; 32]).is_none());
    let mut b = read(&beacon_bytes(&[9u8; 32], "x", 1)).unwrap();
    b.v = 2;
    assert!(validate(&json_of(&b), lan_src(), &[1u8; 32]).is_none());

    let raw = beacon_bytes(&[9u8; 32], "x", 0);
    assert!(validate(&raw, lan_src(), &[1u8; 32]).is_none());

    let raw = beacon_bytes(&[9u8; 16], "x", 45821);
    assert!(validate(&raw, lan_src(), &[1u8; 32]).is_none());
}

#[test]
fn long_names_are_clamped() {
    let raw = beacon_bytes(&[9u8; 32], &"n".repeat(200), 45821);
    let p = validate(&raw, lan_src(), &[1u8; 32]).unwrap();
    assert!(p.name.chars().count() <= 33);
}

#[test]
fn rate_limiter_caps_a_flood() {
    let mut l = RateLimiter::new();
    let ip = addr(192, 168, 1, 9);
    let allowed = (0..50).filter(|_| l.allow(ip, 1_000)).count();
    assert_eq!(allowed, RATE_PER_SOURCE as usize);
    // A different source is unaffected.
    assert!(l.allow(addr(192, 168, 1, 10), 1_000));
}

#[test]
fn our_own_beacon_encodes_within_the_limit() {
    let info = BeaconInfo {
        public_key: vec![7u8; 32],
        name: "x".repeat(64),
        port: 45821,
        platform: "windows".into(),
        announce: true,
    };
    let raw = encode_beacon(&info).unwrap();
    assert!(raw.len() <= MAX_BEACON_BYTES);
    let p = validate(&raw, lan_src(), &[0u8; 32]).unwrap();
    assert_eq!(p.public_key, vec![7u8; 32]);
}

#[test]
fn a_second_later_the_source_is_heard_again() {
    let mut l = RateLimiter::new();
    let ip = addr(10, 0, 0, 1);
    while l.allow(ip, 5) {}
    assert!(!l.allow(ip, 999_999_999));
    assert!(l.allow(ip, 1_000_000_005));
    assert!(!l.admits(MAX_BEACON_BYTES + 1, addr(10, 0, 0, 2), 7));
    assert!(l.admits(MAX_BEACON_BYTES, addr(10, 0, 0, 2), 7));
}

#[test]
fn announcements_can_be_changed_and_stopped() {
    let info = BeaconInfo {
        public_key: vec![7u8; 32],
        name: "PC".into(),
        port: 1,
        platform: "desktop".into(),
        announce: true,
    };
    let mut d = Discovery::start(info);
    assert!(d.is_running());
    let first = d.payload().unwrap();
    assert_eq!(read(&first).unwrap().name, "PC");
    d.update(|mut i| {
        i.name = "Laptop".into();
        i
    });
    assert_eq!(read(&d.payload().unwrap()).unwrap().name, "Laptop");
    d.update(|mut i| {
        i.announce = false;
        i
    });
    assert!(d.payload().is_none());
    d.stop();
    assert!(!d.is_running());
}

#[test]
fn interfaces_decide_where_to_announce() {
    let lan = u32::from_be_bytes([192, 168, 1, 7]);
    let cast = u32::from_be_bytes([192, 168, 1, 255]);
    let ifaces = vec![
        Interface { loopback: true, ip: addr(127, 0, 0, 1), broadcast: None },
        Interface { loopback: false, ip: IpAddr::V6(1), broadcast: None },
        Interface { loopback: false, ip: addr(8, 8, 8, 8), broadcast: None },
        Interface { loopback: false, ip: IpAddr::V4(lan), broadcast: Some(cast) },
        Interface { loopback: false, ip: IpAddr::V4(lan + 1), broadcast: Some(cast) },
    ];
    assert_eq!(local_ipv4(&ifaces), Some(lan));
    assert_eq!(local_ipv4(&ifaces[..3]), None);
    assert!(join_multicast(&ifaces).contains(&lan));
    let broadcasts = interface_broadcasts(&ifaces);
    assert_eq!(broadcasts, vec![cast]);
    let targets = announce_targets(&broadcasts);
    assert!(targets.contains(&SocketAddr { ip: IpAddr::V4(cast), port: DISCOVERY_PORT }));
    assert!(targets.contains(&SocketAddr { ip: addr(255, 255, 255, 255), port: DISCOVERY_PORT }));
    assert!(targets.contains(&SocketAddr { ip: addr(239, 255, 79, 20), port: DISCOVERY_PORT }));
}

#[test]
fn sleeping_is_done_in_short_steps() {
    assert!(sleep_step(3_000_000_000) < 3_000_000_000);
    assert_eq!(sleep_step(1), 1);
}

#[test]
fn an_announcement_keeps_name_platform_and_port() {
    let info = BeaconInfo {
        public_key: vec![7u8; 32],
        name: "имя".repeat(20),
        port: 4711,
        platform: "a-rather-long-platform".into(),
        announce: true,
    };
    let raw = encode_beacon(&info).unwrap();
    let p = validate(&raw, lan_src(), &[0u8; 32]).unwrap();
    assert_eq!(p.name, syncmob::util::clamp_str(&info.name, 32));
    assert_eq!(p.platform, "a-rather-long-pl…");
    assert_eq!(p.addr.port, 4711);
    assert_eq!(p.addr.ip, lan_src().ip);
    assert!(validate(&raw, lan_src(), &[7u8; 32]).is_none());
}
