use syncmob::net::session::{
    frame, frame_len, handshake_initiator, handshake_len, handshake_responder, received, Handshake,
    HandshakeStep, Handshaked, SecureChannel, SessionError, MAX_HANDSHAKE_MSG,
};
use syncmob::proto::{
    Body, Message, ProtoError, TextMsg, TransferId, CHUNK_SIZE, MAX_FRAME, MAX_PLAINTEXT,
};
use syncmob::security::{sas_code, Identity};
use syncmob::util::{IpAddr, SocketAddr};

fn somewhere() -> SocketAddr {
    SocketAddr { ip: IpAddr::V4(0x7f00_0001), port: 4000 }
}

/// Passes one handshake message from one side to the other.
fn pass(from: &mut Handshake, to: &mut Handshake) {
    assert_eq!(from.step(), HandshakeStep::Write);
    assert_eq!(to.step(), HandshakeStep::Read);
    let out = from.write_hs().unwrap();
    let n = handshake_len(&out[..4]).unwrap();
    assert_eq!(n, out.len() - 4);
    to.read_hs(&out[4..]).unwrap();
}

fn handshake(client_id: &Identity, server_id: &Identity) -> (Handshaked, Handshaked) {
    let mut client = handshake_initiator(client_id).unwrap();
    let mut server = handshake_responder(server_id).unwrap();
    pass(&mut client, &mut server);
    pass(&mut server, &mut client);
    pass(&mut client, &mut server);
    assert_eq!(client.step(), HandshakeStep::Done);
    assert_eq!(server.step(), HandshakeStep::Done);
    (
        client.finish(somewhere()).unwrap(),
        server.finish(somewhere()).unwrap(),
    )
}

fn pair() -> (Handshaked, Handshaked) {
    let server_id = Identity::generate().unwrap();
    let client_id = Identity::generate().unwrap();
    let (client, server) = handshake(&client_id, &server_id);
    assert_eq!(client.remote_static, server_id.public_key());
    assert_eq!(server.remote_static, client_id.public_key());
    (client, server)
}

/// Reads one frame that holds a text or something without a body.
fn recv(ch: &mut SecureChannel, wire: &[u8]) -> Result<Message, SessionError> {
    let n = frame_len(&wire[..4])?;
    let pt = ch.recv(&wire[4..4 + n])?;
    let parsed = match Message::shape(&pt) {
        Some(_) => {
            let v: serde_json::Value = serde_json::from_slice(&pt[1..]).unwrap();
            Ok(Body::Text(TextMsg {
                id: TransferId::from_hex(v.get("id").unwrap().as_str().unwrap()).unwrap(),
                ts: v.get("ts").unwrap().as_u64().unwrap(),
                text: v.get("text").unwrap().as_str().unwrap().to_string(),
            }))
        }
        None => Err("no body".to_string()),
    };
    received(&pt, parsed)
}

#[test]
fn handshake_agrees_on_hash_and_keys() {
    let (client, server) = pair();
    assert_eq!(client.handshake_hash, server.handshake_hash);
    assert_eq!(
        sas_code(&client.handshake_hash),
        sas_code(&server.handshake_hash)
    );
    assert!(client.is_initiator && !server.is_initiator);
}

#[test]
fn two_sessions_have_different_codes() {
    let (a, _) = pair();
    let (b, _) = pair();
    assert_ne!(
        sas_code(&a.handshake_hash),
        sas_code(&b.handshake_hash),
        "a MITM running two sessions must not be able to match both codes"
    );
}

#[test]
fn messages_survive_the_round_trip() {
    let (mut client, mut server) = pair();
    let wire = client
        .channel
        .send(&Message::Text(TextMsg {
            id: TransferId::random(),
            ts: 42,
            text: "привет, мир".into(),
        }))
        .unwrap();
    match recv(&mut server.channel, &wire).unwrap() {
        Message::Text(t) => {
            assert_eq!(t.text, "привет, мир");
            assert_eq!(t.ts, 42);
        }
        _ => panic!("unexpected message"),
    }

    let data = vec![0xAB; CHUNK_SIZE];
    let wire = server
        .channel
        .send(&Message::FileChunk {
            id: TransferId::random(),
            offset: 1234,
            data: data.clone(),
        })
        .unwrap();
    match recv(&mut client.channel, &wire).unwrap() {
        Message::FileChunk {
            offset, data: got, ..
        } => {
            assert_eq!(offset, 1234);
            assert_eq!(got, data);
        }
        _ => panic!("unexpected message"),
    }
}

#[test]
fn traffic_on_the_wire_is_not_plaintext() {
    let (mut client, mut server) = pair();
    let wire = client
        .channel
        .send(&Message::Text(TextMsg {
            id: TransferId::random(),
            ts: 0,
            text: "TOP-SECRET-MARKER".into(),
        }))
        .unwrap();
    assert!(!wire.windows(17).any(|w| w == b"TOP-SECRET-MARKER"));
    match recv(&mut server.channel, &wire).unwrap() {
        Message::Text(m) => assert_eq!(m.text, "TOP-SECRET-MARKER"),
        _ => panic!(),
    }
}

#[test]
fn oversized_length_prefix_is_refused() {
    // A bogus 1 GiB length prefix is rejected on the prefix alone, without
    // allocating.
    let prefix = 1_000_000_000u32.to_be_bytes();
    assert!(matches!(
        frame_len(&prefix),
        Err(SessionError::FrameTooLarge(1_000_000_000))
    ));
    let (_, mut server) = pair();
    assert!(matches!(
        recv(&mut server.channel, &prefix),
        Err(SessionError::FrameTooLarge(_))
    ));
}

#[test]
fn truncated_frame_is_refused() {
    let (_, mut server) = pair();
    let mut wire = 8u32.to_be_bytes().to_vec(); // below the AEAD tag size
    wire.extend([0u8; 8]);
    assert!(matches!(
        recv(&mut server.channel, &wire),
        Err(SessionError::FrameTooLarge(_))
    ));
}

#[test]
fn tampered_ciphertext_is_rejected() {
    let (mut client, mut server) = pair();
    // Encrypt a frame and flip a bit in the ciphertext.
    let pt = Message::Ping.encode().unwrap();
    let mut wire = client.channel.encrypt(&pt).unwrap();
    assert_eq!(wire.len(), 4 + pt.len() + 16);
    wire[4] ^= 0x80;
    assert!(matches!(
        recv(&mut server.channel, &wire),
        Err(SessionError::Noise(_))
    ));
}

#[test]
fn closing_the_sender_stops_sends() {
    let (mut client, _server) = pair();
    client.channel.close();
    assert!(client.channel.is_closed());
    assert!(matches!(
        client.channel.send(&Message::Ping),
        Err(SessionError::Closed)
    ));
}

#[test]
fn frames_must_come_in_order() {
    let (mut client, mut server) = pair();
    let first = client.channel.send(&Message::Ping).unwrap();
    let second = client.channel.send(&Message::Pong).unwrap();
    assert_ne!(first, second);
    assert!(matches!(
        recv(&mut server.channel, &second),
        Err(SessionError::Noise(_))
    ));
    assert!(matches!(recv(&mut server.channel, &first), Ok(Message::Ping)));
    assert!(matches!(recv(&mut server.channel, &second), Ok(Message::Pong)));
    assert!(matches!(
        recv(&mut server.channel, &first),
        Err(SessionError::Noise(_))
    ));
}

#[test]
fn a_message_that_does_not_fit_is_not_sent() {
    let (mut client, _) = pair();
    let big = Message::FileChunk {
        id: TransferId::random(),
        offset: 0,
        data: vec![0; MAX_PLAINTEXT],
    };
    assert!(matches!(
        client.channel.send(&big),
        Err(SessionError::Proto(ProtoError::TooLarge(_)))
    ));
    assert!(matches!(
        client.channel.outgoing(&Message::Ping),
        Ok(pt) if pt == Message::Ping.encode().unwrap()
    ));
}

#[test]
fn lengths_are_checked_before_reading() {
    assert!(matches!(frame_len(&[0, 0, 0, 16]), Ok(16)));
    assert!(matches!(frame_len(&[0, 0, 0, 15]), Err(SessionError::FrameTooLarge(15))));
    assert!(matches!(frame_len(&(MAX_FRAME as u32).to_be_bytes()), Ok(n) if n == MAX_FRAME));
    assert!(frame_len(&(MAX_FRAME as u32 + 1).to_be_bytes()).is_err());
    assert!(matches!(handshake_len(&[0, 0, 0, 0]), Err(SessionError::FrameTooLarge(0))));
    assert!(handshake_len(&(MAX_HANDSHAKE_MSG as u32).to_be_bytes()).is_ok());
    assert!(handshake_len(&(MAX_HANDSHAKE_MSG as u32 + 1).to_be_bytes()).is_err());
    assert_eq!(frame(b"abc"), b"\0\0\0\x03abc".to_vec());
}

#[test]
fn garbage_ends_a_handshake() {
    let id = Identity::generate().unwrap();
    let mut server = handshake_responder(&id).unwrap();
    assert!(matches!(server.read_hs(&[1, 2, 3]), Err(SessionError::Noise(_))));
    assert_eq!(server.step(), HandshakeStep::Read);
}

#[test]
fn errors_are_put_in_words() {
    assert_eq!(SessionError::Closed.text(), "channel closed");
    assert_eq!(SessionError::Exhausted.text(), "session exhausted, reconnect required");
    assert_eq!(SessionError::FrameTooLarge(7).text(), "frame too large: 7");
    assert_eq!(SessionError::NoRemoteStatic.text(), "peer did not present a static key");
    assert_eq!(SessionError::Io("x".into()).text(), "io: x");
    assert_eq!(SessionError::Proto(ProtoError::Empty).text(), "protocol: empty frame");
    assert_eq!(SessionError::Params.text(), "bad noise parameters");
    let id = Identity::generate().unwrap();
    let mut server = handshake_responder(&id).unwrap();
    match server.read_hs(&[]) {
        Err(e) => assert!(e.text().starts_with("noise: ")),
        Ok(_) => panic!("read"),
    }
}

#[test]
fn handshake_messages_have_fixed_lengths() {
    let mut client = handshake_initiator(&Identity::generate().unwrap()).unwrap();
    let mut server = handshake_responder(&Identity::generate().unwrap()).unwrap();
    let m = client.write_hs().unwrap();
    assert_eq!(m.len(), 4 + 32);
    server.read_hs(&m[4..]).unwrap();
    let m = server.write_hs().unwrap();
    assert_eq!(m.len(), 4 + 96);
    client.read_hs(&m[4..]).unwrap();
    let m = client.write_hs().unwrap();
    assert_eq!(m.len(), 4 + 64);
    server.read_hs(&m[4..]).unwrap();
    assert_eq!(server.step(), HandshakeStep::Done);
}

#[test]
fn altered_handshake_messages_are_refused() {
    let mut client = handshake_initiator(&Identity::generate().unwrap()).unwrap();
    let mut server = handshake_responder(&Identity::generate().unwrap()).unwrap();
    let m = client.write_hs().unwrap();
    server.read_hs(&m[4..]).unwrap();
    let mut m = server.write_hs().unwrap();
    m[4 + 40] ^= 1;
    assert!(client.read_hs(&m[4..]).is_err());
    let mut other = handshake_responder(&Identity::generate().unwrap()).unwrap();
    assert!(other.read_hs(&m[4..35]).is_err());
}
