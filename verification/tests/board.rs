use syncmob::board::rows::{status, Button, Dot, Status};
use syncmob::board::settings::{
    check_passphrase, device_name, is_too_many_gib, limit_bytes, limit_text, MAX_GIB,
};
use syncmob::board::{Board, Tone, MAX_CHAT, MAX_LOG};
use syncmob::engine::{ConnInfo, PeerInfo};
use syncmob::proto::TransferId;
use syncmob::security::{device_id, DeviceId, TrustStore};
use syncmob::util::{IpAddr, SocketAddr};
use syncmob::EngineEvent;

fn dev(n: u8) -> DeviceId {
    device_id(&[n; 32])
}

fn somewhere() -> SocketAddr {
    SocketAddr { ip: IpAddr::V4(0), port: 1 }
}

fn conn(n: u8, paired: bool) -> ConnInfo {
    ConnInfo {
        device: dev(n),
        name: format!("name{n}"),
        addr: somewhere(),
        fingerprint: String::new(),
        sas: String::new(),
        paired,
    }
}

fn peer(n: u8, name: &str, paired: bool) -> PeerInfo {
    PeerInfo {
        device: dev(n),
        name: name.to_string(),
        platform: String::new(),
        addr: somewhere(),
        public_key: vec![n; 32],
        paired,
    }
}

fn show(b: &mut Board, ev: EngineEvent) {
    b.apply(ev, "12:00:00", "11:59:59", "10.0.0.1:1");
}

fn last(b: &Board) -> (String, Tone) {
    let l = b.log.last().unwrap();
    (l.text.clone(), l.tone)
}

#[test]
fn events_become_log_lines() {
    let mut b = Board::new();
    show(&mut b, EngineEvent::PeerDiscovered(peer(1, "Phone", false)));
    assert_eq!(
        last(&b),
        ("12:00:00  Найдено устройство: Phone (10.0.0.1:1)".to_string(), Tone::Dim)
    );
    show(&mut b, EngineEvent::PeerLost(dev(1)));
    assert_eq!(last(&b).0, "12:00:00  Устройство Phone пропало из сети");
    show(&mut b, EngineEvent::Connected(conn(1, true)));
    assert_eq!(
        last(&b),
        ("12:00:00  Установлено защищённое соединение с name1".to_string(), Tone::Good)
    );
    assert_eq!(b.selected, Some(dev(1)));
    show(&mut b, EngineEvent::Disconnected { device: dev(1), reason: "r".to_string() });
    assert_eq!(last(&b).0, "12:00:00  Соединение с name1 закрыто: r");
    assert!(b.connected.is_empty());
    show(&mut b, EngineEvent::Notice("n".to_string()));
    assert_eq!(last(&b), ("12:00:00  n".to_string(), Tone::Dim));
    show(&mut b, EngineEvent::Error("e".to_string()));
    assert_eq!(last(&b), ("12:00:00  e".to_string(), Tone::Bad));
    let lines = b.log.len();
    show(&mut b, EngineEvent::TrustChanged);
    show(&mut b, EngineEvent::Connected(conn(2, false)));
    assert_eq!(b.log.len(), lines);
    assert_eq!(b.name_of(dev(9)), dev(9).text());
}

#[test]
fn prompts_wait_for_their_answer() {
    let mut b = Board::new();
    let required = EngineEvent::PairingRequired {
        device: dev(1),
        name: String::new(),
        fingerprint: "fp".to_string(),
        sas: "1234 5678".to_string(),
        addr: somewhere(),
        remote_initiated: true,
    };
    show(&mut b, required);
    assert_eq!(b.pairing.as_ref().unwrap().name, dev(1).text());
    show(&mut b, EngineEvent::PairingFinished { device: dev(2), accepted: false });
    assert!(b.pairing.is_some());
    assert_eq!(last(&b).1, Tone::Warning);
    show(&mut b, EngineEvent::PairingFinished { device: dev(1), accepted: true });
    assert!(b.pairing.is_none());
    assert_eq!(b.selected, Some(dev(1)));
    assert_eq!(b.answer_pairing(), None);

    for n in 0..2u8 {
        show(
            &mut b,
            EngineEvent::OfferReceived {
                from: dev(3),
                transfer: TransferId([n; 16]),
                name: format!("f{n}"),
                size: 5,
            },
        );
    }
    assert_eq!(b.answer_offer(false), Some(TransferId([0; 16])));
    assert!(b.transfers.is_empty());
    assert_eq!(b.answer_offer(true), Some(TransferId([1; 16])));
    assert_eq!(b.transfers.len(), 1);
    assert_eq!(b.answer_offer(true), None);
}

#[test]
fn transfers_are_followed() {
    let mut b = Board::new();
    let id = TransferId([4; 16]);
    show(
        &mut b,
        EngineEvent::TransferProgress { transfer: id, done: 1, total: 9, incoming: true },
    );
    assert_eq!(b.active(), vec![id.key()]);
    assert_eq!(b.transfers.get(&id.key()).unwrap().peer, DeviceId([0; 8]));
    show(
        &mut b,
        EngineEvent::TransferFinished {
            transfer: id,
            incoming: true,
            name: "f".to_string(),
            path: Some("d/f".to_string()),
            error: None,
        },
    );
    assert_eq!(last(&b), ("12:00:00  ✔ Файл «f» сохранён: d/f".to_string(), Tone::Good));
    let chat = b.chats.get(&DeviceId([0; 8]).key()).unwrap();
    assert!(chat[0].system && !chat[0].mine);
    assert!(b.active().is_empty());
    for n in 10..20u8 {
        show(
            &mut b,
            EngineEvent::TransferFinished {
                transfer: TransferId([n; 16]),
                incoming: false,
                name: "g".to_string(),
                path: None,
                error: if n == 19 { Some("x".to_string()) } else { None },
            },
        );
    }
    assert_eq!(last(&b).0, "12:00:00  ✖ Файл «g» не передан: x");
    let newest: Vec<u128> = (15..20u8).rev().map(|n| TransferId([n; 16]).key()).collect();
    assert_eq!(b.recent(), newest);
    show(
        &mut b,
        EngineEvent::TransferProgress { transfer: id, done: 1, total: 9, incoming: true },
    );
    b.clear();
    assert!(b.log.is_empty());
    assert!(b.transfers.is_empty());
}

#[test]
fn old_lines_are_dropped() {
    let mut b = Board::new();
    for n in 0..(MAX_LOG + 5) {
        b.note(&format!("{n}"), Tone::Dim, "t");
    }
    assert_eq!(b.log.len(), MAX_LOG);
    assert_eq!(b.log[0].text, "t  5");
    for n in 0..(MAX_CHAT + 2) {
        show(
            &mut b,
            EngineEvent::TextReceived { from: dev(1), text: format!("{n}"), ts: 0 },
        );
    }
    let chat = b.chats.get(&dev(1).key()).unwrap();
    assert_eq!(chat.len(), MAX_CHAT);
    assert_eq!(chat[0].text, "2");
    assert_eq!(chat[0].stamp, "11:59:59");
    show(&mut b, EngineEvent::TextSent { to: dev(2), text: "hi".to_string(), ts: 0 });
    assert!(b.chats.get(&dev(2).key()).unwrap()[0].mine);
}

#[test]
fn rows_follow_the_state() {
    let mut b = Board::new();
    let mut t = TrustStore::new();
    t.add(&[1u8; 32], "one").unwrap();
    t.add(&[2u8; 32], "").unwrap();
    t.add(&[3u8; 32], "three").unwrap();
    t.set_blocked(&[3u8; 32], true);
    let peers = vec![peer(1, "p1", true), peer(3, "p3", false), peer(4, "p4", false)];
    let conns = vec![conn(1, true), conn(4, false)];
    b.selected = Some(dev(2));
    let rows = b.trusted_rows(&t.list(), &peers, &conns);
    assert_eq!(rows.len(), 3);
    for r in &rows {
        if r.id == dev(1) {
            assert_eq!((r.dot, r.button, r.selected), (Dot::Connected, Button::Disconnect, false));
            assert_eq!(r.label, "one");
        } else if r.id == dev(2) {
            assert_eq!((r.dot, r.button, r.selected), (Dot::Offline, Button::Hidden, true));
            assert_eq!(r.label, dev(2).text());
        } else {
            assert_eq!((r.dot, r.button), (Dot::Blocked, Button::Hidden));
        }
    }
    assert_eq!(b.name_of(dev(3)), "three");
    let rows = b.unknown_rows(&peers, &conns);
    assert_eq!(rows.len(), 2);
    assert_eq!((rows[0].dot, rows[0].button), (Dot::Online, Button::Pair));
    assert_eq!((rows[1].dot, rows[1].button), (Dot::Connected, Button::Disconnect));
    assert_eq!(b.name_of(dev(3)), "p3");
    assert_eq!(
        b.device_row(dev(5), "n", true, false, false, true).button,
        Button::Connect
    );
    assert_eq!(status(&conns, dev(1)), Status::Paired);
    assert_eq!(status(&conns, dev(4)), Status::Unpaired);
    assert_eq!(status(&conns, dev(5)), Status::Offline);
}

#[test]
fn forms_are_checked() {
    assert_eq!(
        check_passphrase(false, "семь777", "семь777"),
        Err("Пароль должен быть не короче 8 символов".to_string())
    );
    assert_eq!(
        check_passphrase(false, "12345678", "12345679"),
        Err("Пароли не совпадают".to_string())
    );
    assert_eq!(check_passphrase(false, "восемь88", "восемь88"), Ok(()));
    assert_eq!(check_passphrase(true, "", ""), Ok(()));
    assert_eq!(device_name("  \t "), "SyncMob PC");
    assert_eq!(device_name(" ПК \n"), "ПК");
    assert_eq!(device_name(&"n".repeat(40)), "n".repeat(32) + "…");
    assert_eq!(limit_text(8 << 30), "8");
    assert_eq!(limit_bytes("8"), Some(8 << 30));
    assert_eq!(limit_bytes("eight"), None);
    assert!(is_too_many_gib(&format!("{}", MAX_GIB + 1)));
    assert!(!is_too_many_gib(&format!("{MAX_GIB}")));
    assert_eq!(limit_bytes(&format!("{MAX_GIB}")), Some(MAX_GIB * (1 << 30)));
}
