//! Two engines, one process: pairing, messaging and a file transfer over a real
//! Noise session. The wire, the disk and the clock are kept in memory.

use std::collections::{BTreeMap, VecDeque};

use serde_json::Value;
use syncmob::config::{Config, Paths};
use syncmob::engine::commands::TextStep;
use syncmob::engine::sender::Next;
use syncmob::engine::transfer::{FileDigest, Opened};
use syncmob::engine::{Action, OutSignal, PAIRING_TIMEOUT};
use syncmob::net::session::{
    frame_len, handshake_initiator, handshake_responder, received, Handshake, SecureChannel,
};
use syncmob::proto::{
    Body, FileDone, FileOffer, Hello, IdOnly, IdReason, Message, PairRequest, Shape, TextMsg,
    TransferId, CHUNK_SIZE,
};
use syncmob::security::{DeviceId, Identity, TrustStore};
use syncmob::util::{join_path, IpAddr, SocketAddr};
use syncmob::{Engine, EngineEvent};

fn parse(shape: Shape, json: &[u8]) -> Result<Body, String> {
    let v: Value = serde_json::from_slice(json).map_err(|e| e.to_string())?;
    let text = |k: &str| v.get(k).and_then(|x| x.as_str()).unwrap_or("").to_string();
    let number = |k: &str| v.get(k).and_then(|x| x.as_u64()).unwrap_or(0);
    let id = || TransferId::from_hex(&text("id")).unwrap();
    Ok(match shape {
        Shape::Hello => Body::Hello(Hello {
            name: text("name"),
            version: number("version") as u16,
            platform: text("platform"),
        }),
        Shape::PairRequest => Body::PairRequest(PairRequest {
            name: text("name"),
            platform: text("platform"),
        }),
        Shape::PairReject => Body::PairReject { reason: text("reason") },
        Shape::Text => Body::Text(TextMsg { id: id(), ts: number("ts"), text: text("text") }),
        Shape::IdOnly => Body::IdOnly(IdOnly { id: id() }),
        Shape::FileOffer => Body::FileOffer(FileOffer {
            id: id(),
            name: text("name"),
            size: number("size"),
            sha256: text("sha256"),
            mime: text("mime"),
        }),
        Shape::IdReason => Body::IdReason(IdReason { id: id(), reason: text("reason") }),
        Shape::FileDone => Body::FileDone(FileDone { id: id(), sha256: text("sha256") }),
    })
}

/// One side of a connection.
struct Link {
    key: Vec<u8>,
    channel: SecureChannel,
    inbox: VecDeque<Vec<u8>>,
    outbox: VecDeque<Vec<u8>>,
    open: bool,
}

struct Node {
    engine: Engine,
    links: BTreeMap<u64, Link>,
    files: BTreeMap<String, Vec<u8>>,
    events: Vec<EngineEvent>,
    signals: VecDeque<OutSignal>,
    saves: usize,
}

const NOW: u64 = 1_000_000_000_000;

fn node(name: &str) -> Node {
    let cfg = Config {
        device_name: name.to_string(),
        tcp_port: 0,
        discovery_enabled: false,
        accept_incoming: true,
        download_dir: "downloads".to_string(),
        max_file_size: 0,
        lan_only: true,
        allow_new_pairings: true,
    };
    let paths = Paths { root: "profile".to_string() };
    let mut engine = Engine::start(
        Identity::generate().unwrap(),
        cfg,
        paths,
        TrustStore::new(),
        "desktop".to_string(),
    );
    assert_eq!(engine.listening(4000).len(), 1);
    Node {
        engine,
        links: BTreeMap::new(),
        files: BTreeMap::new(),
        events: Vec::new(),
        signals: VecDeque::new(),
        saves: 0,
    }
}

impl Node {
    fn send(&mut self, to: DeviceId, msg: &Message) -> Result<(), String> {
        match self.links.get_mut(&to.key()) {
            Some(l) => match l.channel.send(msg) {
                Ok(wire) => {
                    l.outbox.push_back(wire);
                    Ok(())
                }
                Err(e) => Err(e.text()),
            },
            None => Err("no link".to_string()),
        }
    }

    fn run(&mut self, acts: Vec<Action>) {
        let mut todo: VecDeque<Action> = acts.into();
        while let Some(a) = todo.pop_front() {
            let more = match a {
                Action::Emit(ev) => {
                    self.events.push(ev);
                    Vec::new()
                }
                Action::Send { to, msg } => {
                    let _ = self.send(to, &msg);
                    Vec::new()
                }
                Action::Close { device } => {
                    if let Some(l) = self.links.get_mut(&device.key()) {
                        l.open = false;
                    }
                    Vec::new()
                }
                Action::SaveTrust { .. } => {
                    assert!(self.engine.trust.can_save());
                    self.engine.trust.save(&self.engine.identity).unwrap();
                    self.saves += 1;
                    Vec::new()
                }
                Action::SaveConfig | Action::Dial { .. } => Vec::new(),
                Action::OpenPart { device, transfer, path, .. } => {
                    self.files.insert(path, Vec::new());
                    self.engine.part_opened(device, transfer, Opened::Ready)
                }
                Action::WritePart { device, transfer, offset, data } => {
                    let path = self.engine.incoming.get(&transfer.key()).unwrap().part_path.clone();
                    let file = self.files.get_mut(&path).unwrap();
                    assert_eq!(file.len() as u64, offset);
                    file.extend(&data);
                    self.engine.chunk_written(device, transfer, offset, &data, Ok(()))
                }
                Action::FlushPart { device, transfer } => {
                    self.engine.finish_transfer(device, transfer, Ok(()))
                }
                Action::PublishPart { device, transfer, part, mut place } => {
                    while !place.settled() {
                        let there = self.files.contains_key(&place.path());
                        place.answer(there);
                    }
                    let data = self.files.remove(&part).unwrap();
                    assert!(self.files.insert(place.path(), data).is_none());
                    self.engine.published(device, transfer, part, place, Ok(()))
                }
                Action::RemovePart { path } => {
                    self.files.remove(&path);
                    Vec::new()
                }
                Action::Signal { signal, .. } => {
                    self.signals.push_back(signal);
                    Vec::new()
                }
            };
            for m in more.into_iter().rev() {
                todo.push_front(m);
            }
        }
    }

    /// Takes one message from the wire; false when there is none.
    fn take_one(&mut self, from: DeviceId) -> bool {
        let (key, pt) = match self.links.get_mut(&from.key()) {
            Some(l) => match l.inbox.pop_front() {
                Some(wire) => {
                    let n = frame_len(&wire[..4]).unwrap();
                    (l.key.clone(), l.channel.recv(&wire[4..4 + n]).unwrap())
                }
                None => return false,
            },
            None => return false,
        };
        let parsed = match Message::shape(&pt) {
            Some(shape) => parse(shape, &pt[1..]),
            None => Err("no body".to_string()),
        };
        let end = match received(&pt, parsed) {
            Ok(msg) => {
                let (r, acts) = self.engine.on_message(from, &key, msg, NOW, 5);
                self.run(acts);
                r.err()
            }
            Err(e) => Some(e.text()),
        };
        if let Some(reason) = end {
            self.hang_up(from, reason);
        }
        true
    }

    fn hang_up(&mut self, device: DeviceId, reason: String) {
        if self.links.remove(&device.key()).is_some() {
            let acts = self.engine.end_connection(device, reason);
            self.run(acts);
        }
    }

    fn drain(&mut self) -> Vec<EngineEvent> {
        std::mem::take(&mut self.events)
    }
}

/// Moves everything that was written until nothing is left.
fn settle(a: &mut Node, b: &mut Node) {
    let a_id = a.engine.device_id();
    let b_id = b.engine.device_id();
    loop {
        let mut moved = false;
        if let (Some(x), Some(y)) = (a.links.get_mut(&b_id.key()), b.links.get_mut(&a_id.key())) {
            y.inbox.append(&mut x.outbox);
            x.inbox.append(&mut y.outbox);
        }
        moved |= a.take_one(b_id);
        moved |= b.take_one(a_id);
        let a_open = a.links.get(&b_id.key()).map(|l| l.open).unwrap_or(false);
        let b_open = b.links.get(&a_id.key()).map(|l| l.open).unwrap_or(false);
        if !moved {
            if !a_open || !b_open {
                a.hang_up(b_id, "closed".to_string());
                b.hang_up(a_id, "closed".to_string());
            }
            return;
        }
    }
}

fn pass(from: &mut Handshake, to: &mut Handshake) {
    let out = from.write_hs().unwrap();
    to.read_hs(&out[4..]).unwrap();
}

/// `b` dials `a`; the result is whether both kept the connection.
fn connect(a: &mut Node, b: &mut Node, expect: Option<Vec<u8>>) -> bool {
    let addr = SocketAddr { ip: IpAddr::V4(0x7f00_0001), port: a.engine.port() };
    assert!(b.engine.dial(addr.ip, "127.0.0.1:4000").is_ok());
    assert!(a.engine.can_count(addr.ip, NOW));
    assert!(a.engine.admits(addr.ip, NOW));
    let mut i = handshake_initiator(&b.engine.identity).unwrap();
    let mut r = handshake_responder(&a.engine.identity).unwrap();
    pass(&mut i, &mut r);
    pass(&mut r, &mut i);
    pass(&mut i, &mut r);
    let hb = i.finish(addr).unwrap();
    let ha = r.finish(addr).unwrap();
    let mut both = true;
    for (n, h, dialed, expect) in [(&mut *b, hb, true, expect), (&mut *a, ha, false, None)] {
        let key = h.remote_static.clone();
        let (device, kept, acts) = n.engine.begin_connection(
            h.remote_static,
            &h.handshake_hash,
            h.peer_addr,
            "127.0.0.1:4000",
            dialed,
            expect,
            NOW,
        );
        if kept {
            n.links.insert(
                device.key(),
                Link {
                    key,
                    channel: h.channel,
                    inbox: VecDeque::new(),
                    outbox: VecDeque::new(),
                    open: true,
                },
            );
        }
        both &= kept;
        n.run(acts);
    }
    if both {
        settle(a, b);
    } else {
        a.links.clear();
        b.links.clear();
    }
    both
}

fn prompt_of(evs: &[EngineEvent], peer: DeviceId) -> Option<String> {
    evs.iter().rev().find_map(|e| match e {
        EngineEvent::PairingRequired { device, sas, .. } if *device == peer => Some(sas.clone()),
        _ => None,
    })
}

fn pair(a: &mut Node, b: &mut Node) -> (DeviceId, DeviceId) {
    let a_id = a.engine.device_id();
    let b_id = b.engine.device_id();
    let key = a.engine.public_key();
    assert!(connect(a, b, Some(key)));
    let sas_b = prompt_of(&b.drain(), a_id).expect("pairing prompt on B");
    let sas_a = prompt_of(&a.drain(), b_id).expect("pairing prompt on A");
    // Both users see the same code; this is what makes the comparison
    // meaningful against a machine-in-the-middle.
    assert_eq!(sas_a, sas_b, "both sides must display the same pairing code");
    assert_eq!(sas_a.len(), 9);

    let acts = a.engine.respond_pairing(b_id, true);
    a.run(acts);
    settle(a, b);
    assert!(a.engine.trusted().is_empty(), "one approval is not enough");
    let acts = b.engine.respond_pairing(a_id, true);
    b.run(acts);
    settle(a, b);

    for (n, peer) in [(&mut *a, b_id), (&mut *b, a_id)] {
        let ok = n.drain().iter().any(|e| {
            matches!(e, EngineEvent::PairingFinished { device, accepted: true } if *device == peer)
        });
        assert!(ok, "pairing must succeed");
    }
    assert_eq!(a.engine.trusted().len(), 1);
    assert_eq!(b.engine.trusted().len(), 1);
    assert_eq!(a.saves, 1);
    (a_id, b_id)
}

fn say(from: &mut Node, to: DeviceId, text: &str) -> Option<String> {
    match from.engine.send_text(to, text) {
        TextStep::Nothing => None,
        TextStep::Refused(a) => {
            from.run(vec![a]);
            None
        }
        TextStep::Send(m) => {
            let outcome = from.send(to, &Message::Text(m.clone()));
            let a = Engine::text_sent(to, m.clone(), outcome);
            from.run(vec![a]);
            Some(m.text)
        }
    }
}

fn texts(evs: &[EngineEvent]) -> Vec<String> {
    evs.iter()
        .filter_map(|e| match e {
            EngineEvent::TextReceived { text, .. } => Some(text.clone()),
            _ => None,
        })
        .collect()
}

/// Offers a file; the answers come through `settle`.
fn send_file(
    from: &mut Node,
    to: &mut Node,
    name: &str,
    payload: &[u8],
    answer: bool,
) -> TransferId {
    let to_id = to.engine.device_id();
    let mut d = FileDigest::new();
    d.update(payload);
    let (s, next, acts) = from.engine.send_file(
        to_id,
        Some(name.to_string()),
        join_path("home", name),
        Ok(d.finish()),
    );
    let mut s = s;
    from.run(acts);
    let mut next = next;
    let mut at = 0;
    loop {
        let (n, acts) = match next {
            Next::Offer(m) => {
                let sent = from.send(to_id, &m);
                settle(from, to);
                let offered = to.drain().iter().find_map(|e| match e {
                    EngineEvent::OfferReceived { transfer, name, size, .. } => {
                        Some((*transfer, name.clone(), *size))
                    }
                    _ => None,
                });
                let (id, shown, size) = offered.expect("offer");
                assert_eq!(shown, name);
                assert_eq!(size, payload.len() as u64);
                let acts = to.engine.respond_offer(id, answer);
                to.run(acts);
                settle(from, to);
                from.engine.offer_sent(&s, sent)
            }
            Next::Await => {
                let sig = from.signals.pop_front();
                from.engine.offer_answered(&s, sig)
            }
            Next::Open => from.engine.file_opened(&s, Ok(())),
            Next::Poll => {
                let sig = from.signals.pop_front();
                from.engine.polled(&s, sig)
            }
            Next::Read => {
                let end = (at + CHUNK_SIZE).min(payload.len());
                let piece = payload[at..end].to_vec();
                from.engine.chunk_read(&s, Ok(piece))
            }
            Next::Chunk(m) => {
                let n = match &m {
                    Message::FileChunk { data, offset, .. } => {
                        assert_eq!(*offset, at as u64);
                        data.len()
                    }
                    _ => panic!("not a chunk"),
                };
                at += n;
                let sent = from.send(to_id, &m);
                settle(from, to);
                from.engine.chunk_sent(&mut s, n, sent)
            }
            Next::Stop => {
                settle(from, to);
                return s.id;
            }
        };
        from.run(acts);
        next = n;
    }
}

#[test]
fn pair_then_exchange_text_and_a_file() {
    let mut a = node("PC");
    let mut b = node("Phone");
    let (a_id, b_id) = pair(&mut a, &mut b);

    // --- text ---------------------------------------------------------
    say(&mut a, b_id, "привет с ПК");
    settle(&mut a, &mut b);
    assert_eq!(texts(&b.drain()), ["привет с ПК"]);
    assert!(a.drain().iter().any(|e| matches!(e, EngineEvent::TextSent { .. })));

    say(&mut b, a_id, "ответ с телефона");
    settle(&mut a, &mut b);
    assert_eq!(texts(&a.drain()), ["ответ с телефона"]);

    // --- file ---------------------------------------------------------
    // Larger than one chunk so the chunking path is exercised.
    let payload: Vec<u8> = (0..300_000u32).map(|i| (i % 251) as u8).collect();
    let id = send_file(&mut a, &mut b, "отчёт.bin", &payload, true);
    let path = b
        .drain()
        .into_iter()
        .find_map(|e| match e {
            EngineEvent::TransferFinished { transfer, incoming: true, path, error, .. }
                if transfer == id =>
            {
                assert!(error.is_none(), "transfer failed: {error:?}");
                path
            }
            _ => None,
        })
        .expect("path");
    assert_eq!(path, "downloads/отчёт.bin");
    assert_eq!(b.files.get(&path), Some(&payload));
    assert_eq!(b.files.len(), 1, "the quarantine is left clean");
    assert!(a.engine.outgoing.is_empty());
}

#[test]
fn rejected_offer_leaves_nothing_behind() {
    let mut a = node("PC");
    let mut b = node("Phone");
    pair(&mut a, &mut b);
    send_file(&mut a, &mut b, "secret.bin", &vec![1u8; 50_000], false);
    let err = a.drain().into_iter().find_map(|e| match e {
        EngineEvent::TransferFinished { incoming: false, error, .. } => error,
        _ => None,
    });
    assert!(err.is_some(), "sender must be told the offer was refused");
    assert_eq!(err.unwrap(), "получатель отказался: отклонено получателем");
    assert!(b.files.is_empty());
}

#[test]
fn unpaired_peer_cannot_send_anything() {
    let mut a = node("PC");
    let mut b = node("Stranger");
    let a_id = a.engine.device_id();
    assert!(connect(&mut a, &mut b, None));
    assert!(prompt_of(&b.drain(), a_id).is_some());

    // The connection exists, but nothing may flow across it.
    say(&mut b, a_id, "should not arrive");
    let err = b
        .drain()
        .into_iter()
        .find_map(|e| match e {
            EngineEvent::Error(m) => Some(m),
            _ => None,
        })
        .expect("refusal");
    assert!(err.contains("сопряжено"), "unexpected error: {err}");
    assert!(a.engine.trusted().is_empty());
    settle(&mut a, &mut b);
    assert!(texts(&a.drain()).is_empty());

    // A peer that sends all the same loses its connection.
    let text = TextMsg { id: TransferId::random(), ts: 0, text: "x".to_string() };
    b.send(a_id, &Message::Text(text)).unwrap();
    settle(&mut a, &mut b);
    let evs = a.drain();
    assert!(texts(&evs).is_empty());
    assert!(evs.iter().any(|e| matches!(
        e,
        EngineEvent::Disconnected { reason, .. } if reason == "устройство прислало данные до сопряжения"
    )));
}

#[test]
fn declining_pairing_closes_the_connection() {
    let mut a = node("PC");
    let mut b = node("Phone");
    let a_id = a.engine.device_id();
    let b_id = b.engine.device_id();
    assert!(connect(&mut a, &mut b, None));
    assert!(prompt_of(&a.drain(), b_id).is_some());
    let acts = a.engine.respond_pairing(b_id, false);
    a.run(acts);
    settle(&mut a, &mut b);
    assert!(b
        .drain()
        .iter()
        .any(|e| matches!(e, EngineEvent::Disconnected { device, .. } if *device == a_id)));
    assert!(a.engine.trusted().is_empty());
    assert!(b.engine.trusted().is_empty());
}

#[test]
fn a_substituted_key_aborts_the_connection() {
    let mut a = node("PC");
    let mut b = node("Phone");
    // Simulates scanning a QR code for device A but reaching an impostor:
    // the key proved in the handshake is not the key we were promised.
    assert!(!connect(&mut a, &mut b, Some(vec![0xAAu8; 32])));
    let msg = b
        .drain()
        .into_iter()
        .find_map(|e| match e {
            EngineEvent::Error(m) if m.contains("другой ключ") => Some(m),
            _ => None,
        })
        .expect("MITM warning");
    assert!(msg.contains("разорвано"));
    assert!(b.engine.trusted().is_empty());
    assert!(b.engine.connections().is_empty());
}

#[test]
fn forgetting_a_device_revokes_access() {
    let mut a = node("PC");
    let mut b = node("Phone");
    let (a_id, b_id) = pair(&mut a, &mut b);
    let acts = a.engine.forget(b_id);
    a.run(acts);
    assert!(a.engine.trusted().is_empty());
    settle(&mut a, &mut b);
    assert!(b
        .drain()
        .iter()
        .any(|e| matches!(e, EngineEvent::Disconnected { device, .. } if *device == a_id)));
    a.drain();

    // Reconnecting now requires a fresh pairing on A's side.
    assert!(connect(&mut a, &mut b, None));
    assert!(prompt_of(&a.drain(), b_id).is_some());
}

#[test]
fn unknown_transfer_ids_are_ignored() {
    let mut a = node("PC");
    let mut b = node("Phone");
    let (_a_id, b_id) = pair(&mut a, &mut b);
    // Responding to an id that was never offered must be a no-op, not a panic.
    let acts = a.engine.respond_offer(TransferId::random(), true);
    assert!(acts.is_empty());
    let acts = a.engine.cancel_transfer(TransferId::random());
    assert!(acts.is_empty());
    say(&mut a, b_id, "still alive");
    settle(&mut a, &mut b);
    assert_eq!(texts(&b.drain()), ["still alive"]);
}

#[test]
fn paired_devices_know_each_other_again() {
    let mut a = node("PC");
    let mut b = node("Phone");
    let (a_id, b_id) = pair(&mut a, &mut b);
    a.hang_up(b_id, "gone".to_string());
    b.hang_up(a_id, "gone".to_string());
    a.drain();
    a.engine.config.allow_new_pairings = false;
    assert!(connect(&mut a, &mut b, None));
    let evs = a.drain();
    assert!(prompt_of(&evs, b_id).is_none());
    assert!(evs
        .iter()
        .any(|e| matches!(e, EngineEvent::Connected(c) if c.paired && c.name == "Phone")));
    assert_eq!(a.engine.connections().len(), 1);
    assert_eq!(a.engine.trusted()[0].name, "Phone");
}

#[test]
fn blocked_devices_get_no_connection() {
    let mut a = node("PC");
    let mut b = node("Phone");
    let (_a_id, b_id) = pair(&mut a, &mut b);
    let acts = a.engine.set_blocked(b_id, true);
    a.run(acts);
    settle(&mut a, &mut b);
    assert!(a.engine.connections().is_empty());
    assert!(!connect(&mut a, &mut b, None));
    assert!(a.engine.connections().is_empty());
}

#[test]
fn new_pairings_can_be_forbidden() {
    let mut a = node("PC");
    let mut b = node("Phone");
    a.engine.config.allow_new_pairings = false;
    assert!(!connect(&mut a, &mut b, None));
    assert!(a
        .drain()
        .iter()
        .any(|e| matches!(e, EngineEvent::Notice(m) if m.ends_with("новые сопряжения запрещены"))));
}

#[test]
fn unanswered_prompts_expire() {
    let mut a = node("PC");
    let mut b = node("Phone");
    let b_id = b.engine.device_id();
    assert!(connect(&mut a, &mut b, None));
    assert!(a.engine.expire_pairings(NOW + PAIRING_TIMEOUT).is_empty());
    let (ping, acts) = a.engine.housekeep(NOW + PAIRING_TIMEOUT + 1, NOW + PAIRING_TIMEOUT);
    assert_eq!(ping, NOW + PAIRING_TIMEOUT);
    assert!(matches!(acts[0], Action::Close { device } if device == b_id));
    assert_eq!(acts.len(), 2);
    let (ping, acts) = a.engine.housekeep(NOW + PAIRING_TIMEOUT, NOW);
    assert_eq!(ping, NOW + PAIRING_TIMEOUT);
    assert!(matches!(&acts[0], Action::Send { msg: Message::Ping, .. }));
}

#[test]
fn auto_accepted_files_are_written_without_asking() {
    let mut a = node("PC");
    let mut b = node("Phone");
    let (a_id, b_id) = pair(&mut a, &mut b);
    let acts = b.engine.set_auto_accept(a_id, true);
    b.run(acts);
    let payload = vec![5u8; 10];
    let mut d = FileDigest::new();
    d.update(&payload);
    let (sha, size) = d.finish();
    let offer = FileOffer {
        id: TransferId([1; 16]),
        name: "../a.txt".to_string(),
        size,
        sha256: sha,
        mime: String::new(),
    };
    a.send(b_id, &Message::FileOffer(offer)).unwrap();
    settle(&mut a, &mut b);
    assert!(b.files.len() == 1);
    a.send(b_id, &Message::FileChunk { id: TransferId([1; 16]), offset: 0, data: payload })
        .unwrap();
    settle(&mut a, &mut b);
    assert!(b.files.contains_key("downloads/a.txt"));
}

#[test]
fn a_wrong_hash_publishes_nothing() {
    let mut a = node("PC");
    let mut b = node("Phone");
    let (_a_id, b_id) = pair(&mut a, &mut b);
    let id = TransferId([2; 16]);
    let offer = FileOffer {
        id,
        name: "a.txt".to_string(),
        size: 3,
        sha256: "0".repeat(64),
        mime: String::new(),
    };
    a.send(b_id, &Message::FileOffer(offer)).unwrap();
    settle(&mut a, &mut b);
    let acts = b.engine.respond_offer(id, true);
    b.run(acts);
    a.send(b_id, &Message::FileChunk { id, offset: 0, data: vec![1, 2, 3] }).unwrap();
    settle(&mut a, &mut b);
    assert!(b.files.is_empty());
    assert!(b.drain().iter().any(|e| matches!(
        e,
        EngineEvent::TransferFinished { error: Some(m), .. } if m == "content hash does not match the offer"
    )));
}

#[test]
fn limits_turn_offers_down() {
    let mut a = node("PC");
    let mut b = node("Phone");
    let (_a_id, b_id) = pair(&mut a, &mut b);
    b.engine.config.max_file_size = 10;
    let offer = |n: u8, size: u64| {
        Message::FileOffer(FileOffer {
            id: TransferId([n; 16]),
            name: "a.txt".to_string(),
            size,
            sha256: "0".repeat(64),
            mime: String::new(),
        })
    };
    a.send(b_id, &offer(1, 11)).unwrap();
    settle(&mut a, &mut b);
    assert!(b.engine.incoming.is_empty());
    assert!(b.drain().iter().any(|e| matches!(
        e,
        EngineEvent::Notice(m) if m == "Отклонён файл a.txt — превышен лимит размера"
    )));
    for n in 1..20u8 {
        a.send(b_id, &offer(n, 10)).unwrap();
    }
    settle(&mut a, &mut b);
    assert_eq!(b.engine.incoming.len(), 16);
    assert_eq!(b.engine.active_transfers().len(), 16);
}

#[test]
fn cancelling_stops_both_ways() {
    let mut a = node("PC");
    let mut b = node("Phone");
    let (a_id, b_id) = pair(&mut a, &mut b);
    let id = TransferId([7; 16]);
    let (s, next, _) = a.engine.send_file_as(
        b_id,
        None,
        "home/file".to_string(),
        Ok(("0".repeat(64), 5)),
        id,
    );
    assert_eq!(s.name, "file");
    let offer = match next {
        Next::Offer(m) => m,
        _ => panic!("no offer"),
    };
    a.send(b_id, &offer).unwrap();
    settle(&mut a, &mut b);
    let acts = a.engine.cancel_transfer(id);
    a.run(acts);
    settle(&mut a, &mut b);
    assert!(b.engine.incoming.is_empty());
    let (next, acts) = a.engine.polled(&s, None);
    assert!(matches!(next, Next::Stop));
    assert!(matches!(
        &acts[0],
        Action::Emit(EngineEvent::TransferFinished { error: Some(m), .. }) if m == "отменено"
    ));
    assert!(a.engine.outgoing.is_empty());

    // A file that changed while it was read is given up.
    let (mut s, _, _) = a.engine.send_file_as(
        b_id,
        None,
        "home/file".to_string(),
        Ok(("0".repeat(64), 5)),
        id,
    );
    let (next, _) = a.engine.chunk_read(&s, Ok(vec![1, 2]));
    assert!(matches!(next, Next::Chunk(_)));
    let (next, _) = a.engine.chunk_sent(&mut s, 2, Ok(()));
    assert!(matches!(next, Next::Poll));
    assert_eq!(s.offset, 2);
    let (next, acts) = a.engine.chunk_read(&s, Ok(Vec::new()));
    assert!(matches!(next, Next::Stop));
    assert_eq!(acts.len(), 2);
    assert!(matches!(
        &acts[1],
        Action::Emit(EngineEvent::TransferFinished { error: Some(m), .. })
            if m == "файл изменился во время отправки"
    ));
    let (_, next, acts) =
        a.engine.send_file(a_id, None, "x".to_string(), Ok(("0".repeat(64), 1)));
    assert!(matches!(next, Next::Stop));
    assert!(matches!(
        &acts[0],
        Action::Emit(EngineEvent::TransferFinished { error: Some(m), .. })
            if m == "Нет соединения с устройством"
    ));
    let (_, _, acts) =
        a.engine.send_file(a_id, Some("n".to_string()), "x".to_string(), Err("denied".to_string()));
    assert!(matches!(
        &acts[0],
        Action::Emit(EngineEvent::Error(m)) if m == "Не удалось прочитать n: denied"
    ));
}

/// The path and the error of a file that came in.
fn arrived(evs: Vec<EngineEvent>) -> Option<(Option<String>, Option<String>)> {
    evs.into_iter().find_map(|e| match e {
        EngineEvent::TransferFinished { incoming: true, path, error, .. } => Some((path, error)),
        _ => None,
    })
}

#[test]
fn a_file_leaves_the_connection_usable() {
    let mut a = node("PC");
    let mut b = node("Phone");
    let (a_id, b_id) = pair(&mut a, &mut b);
    let payload = vec![7u8; CHUNK_SIZE + 1];
    send_file(&mut a, &mut b, "a.bin", &payload, true);
    settle(&mut a, &mut b);
    assert_eq!(arrived(b.drain()), Some((Some("downloads/a.bin".to_string()), None)));
    a.drain();
    say(&mut a, b_id, "ещё здесь?");
    say(&mut b, a_id, "да");
    settle(&mut a, &mut b);
    assert_eq!(texts(&b.drain()), ["ещё здесь?"]);
    assert_eq!(texts(&a.drain()), ["да"]);
    assert_eq!(a.engine.connections().len(), 1);
    assert_eq!(b.engine.connections().len(), 1);
}

#[test]
fn the_end_of_a_file_repeats_the_offered_hash() {
    let mut a = node("PC");
    let mut b = node("Phone");
    let (_a_id, b_id) = pair(&mut a, &mut b);
    let mut d = FileDigest::new();
    d.update(b"abc");
    let (sha, size) = d.finish();
    let (mut s, _, _) =
        a.engine.send_file(b_id, None, "home/x".to_string(), Ok((sha.clone(), size)));
    let (next, _) = a.engine.chunk_read(&s, Ok(b"abc".to_vec()));
    assert!(matches!(next, Next::Chunk(_)));
    let (next, _) = a.engine.chunk_sent(&mut s, 3, Ok(()));
    assert!(matches!(next, Next::Poll));
    let (next, acts) = a.engine.chunk_read(&s, Ok(Vec::new()));
    assert!(matches!(next, Next::Stop));
    let done = acts.iter().find_map(|x| match x {
        Action::Send { msg: Message::FileDone(d), .. } => Some(d.clone()),
        _ => None,
    });
    assert_eq!(done.expect("the last message").sha256, sha);
}

#[test]
fn received_files_overwrite_nothing() {
    let mut a = node("PC");
    let mut b = node("Phone");
    pair(&mut a, &mut b);
    send_file(&mut a, &mut b, "a.txt", b"first", true);
    b.drain();
    send_file(&mut a, &mut b, "a.txt", b"second", true);
    assert_eq!(arrived(b.drain()), Some((Some("downloads/a (1).txt".to_string()), None)));
    assert_eq!(b.files.get("downloads/a.txt"), Some(&b"first".to_vec()));
    assert_eq!(b.files.get("downloads/a (1).txt"), Some(&b"second".to_vec()));
}

#[test]
fn a_second_approval_does_nothing() {
    let mut a = node("PC");
    let mut b = node("Phone");
    let (_a_id, b_id) = pair(&mut a, &mut b);
    let id = TransferId([3; 16]);
    let mut d = FileDigest::new();
    d.update(b"abcdef");
    let (sha256, size) = d.finish();
    let offer =
        FileOffer { id, name: "a.txt".to_string(), size, sha256, mime: String::new() };
    a.send(b_id, &Message::FileOffer(offer)).unwrap();
    settle(&mut a, &mut b);
    let acts = b.engine.respond_offer(id, true);
    assert!(b.engine.respond_offer(id, true).is_empty());
    b.run(acts);
    a.send(b_id, &Message::FileChunk { id, offset: 0, data: b"abc".to_vec() }).unwrap();
    settle(&mut a, &mut b);
    assert!(b.engine.respond_offer(id, true).is_empty());
    assert_eq!(b.engine.incoming.get(&id.key()).unwrap().received, 3);
    a.send(b_id, &Message::FileChunk { id, offset: 3, data: b"def".to_vec() }).unwrap();
    settle(&mut a, &mut b);
    assert_eq!(b.files.get("downloads/a.txt"), Some(&b"abcdef".to_vec()));
}

#[test]
fn listed_transfers_can_be_cancelled() {
    let mut a = node("PC");
    let mut b = node("Phone");
    let (_a_id, b_id) = pair(&mut a, &mut b);
    let id = TransferId([9; 16]);
    let (_, _, _) = a.engine.send_file_as(
        b_id,
        None,
        "home/file".to_string(),
        Ok(("0".repeat(64), 5)),
        id,
    );
    let listed = a.engine.active_transfers();
    assert_eq!(listed.len(), 1);
    assert_eq!(listed[0].id, id);
    assert!(!listed[0].incoming);
    assert!(!a.engine.cancel_transfer(listed[0].id).is_empty());
}

#[test]
fn long_texts_arrive_cut() {
    let mut a = node("PC");
    let mut b = node("Phone");
    let (_a_id, b_id) = pair(&mut a, &mut b);
    let whole = "я".repeat(4096);
    for (raw, sent) in [
        (whole.clone(), whole.clone()),
        ("я".repeat(4097), "я".repeat(4095) + "…"),
        ("x".repeat(9000), "x".repeat(4095) + "…"),
    ] {
        assert_eq!(say(&mut a, b_id, &raw), Some(sent.clone()));
        settle(&mut a, &mut b);
        assert_eq!(texts(&b.drain()), [sent]);
    }
    // Four bytes each: what does not fit into one message is cut as well.
    let sent = say(&mut a, b_id, &"😀".repeat(4096)).unwrap();
    assert!(sent.ends_with('…') && sent.chars().count() <= 4096);
    settle(&mut a, &mut b);
    assert_eq!(texts(&b.drain()), [sent]);
}

#[test]
fn texts_are_cut_only_where_a_message_is_full() {
    let mut a = node("PC");
    let mut b = node("Phone");
    let (_a_id, b_id) = pair(&mut a, &mut b);
    let id = TransferId([1; 16]);
    let sent = |n: usize, ts: u64| match a.engine.send_text_with(b_id, &"😀".repeat(n), id, ts) {
        TextStep::Send(m) => m,
        _ => panic!("not sent"),
    };
    // The time takes 13 digits, and more or fewer in other years.
    for (n, ts, whole) in [
        (4077, 1_700_000_000_000, true),
        (4078, 1_700_000_000_000, true),
        (4079, 1_700_000_000_000, false),
        (4081, 1, true),
        (4082, 1, false),
        (4077, u64::MAX, false),
        (4076, u64::MAX, true),
    ] {
        let m = sent(n, ts);
        assert_eq!(m.text == "😀".repeat(n), whole, "{n} at {ts}");
        assert_eq!(m.text.ends_with('…'), !whole);
        assert!(Message::Text(m).encode().unwrap().len() <= 1 + 16384);
    }
    assert_eq!(sent(4079, 1_700_000_000_000).text, "😀".repeat(4077) + "…");
}

#[test]
fn files_beyond_the_limit_are_not_offered() {
    let mut a = node("PC");
    let mut b = node("Phone");
    let (_a_id, b_id) = pair(&mut a, &mut b);
    let sha = "0".repeat(64);
    let (_, next, acts) =
        a.engine.send_file(b_id, None, "x".to_string(), Ok((sha.clone(), (1u64 << 40) + 1)));
    assert!(matches!(next, Next::Stop));
    assert!(acts.iter().any(|x| matches!(
        x,
        Action::Emit(EngineEvent::TransferFinished { error: Some(m), .. })
            if m == "файл слишком большой"
    )));
    let (_, next, _) = a.engine.send_file(b_id, None, "x".to_string(), Ok((sha.clone(), 1u64 << 40)));
    assert!(matches!(next, Next::Offer(_)));
    let (s, _, _) =
        a.engine.send_file(b_id, Some("ж".repeat(300)), "x".to_string(), Ok((sha, 1)));
    assert_eq!(s.name, "ж".repeat(255));
}

#[test]
fn long_device_names_do_not_break_the_greeting() {
    let mut a = node(&"N".repeat(200));
    let mut b = node("Phone");
    let (a_id, b_id) = pair(&mut a, &mut b);
    assert_eq!(b.engine.trusted()[0].name, "N".repeat(64));
    say(&mut b, a_id, "hi");
    say(&mut a, b_id, "hi");
    settle(&mut a, &mut b);
    assert_eq!(texts(&a.drain()), ["hi"]);
}
