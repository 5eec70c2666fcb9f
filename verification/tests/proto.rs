use serde_json::Value;
use syncmob::proto::{
    ty, Body, FileDone, FileOffer, Hello, IdOnly, IdReason, Message, PairRequest, ProtoError, Shape,
    TextMsg, TransferId, TransferIdError, MAX_CONTROL_JSON, MAX_FILE_SIZE, MAX_PLAINTEXT,
    MAX_TEXT_CHARS,
};

fn text_of(v: &Value, key: &str) -> Result<String, String> {
    match v.get(key).and_then(|x| x.as_str()) {
        Some(s) => Ok(s.to_string()),
        None => Err(format!("missing {key}")),
    }
}

fn text_or_empty(v: &Value, key: &str) -> Result<String, String> {
    match v.get(key) {
        None => Ok(String::new()),
        Some(_) => text_of(v, key),
    }
}

fn number_of(v: &Value, key: &str) -> Result<u64, String> {
    v.get(key).and_then(|x| x.as_u64()).ok_or(format!("missing {key}"))
}

fn id_of(v: &Value) -> Result<TransferId, String> {
    TransferId::from_hex(&text_of(v, "id")?).map_err(|e| format!("{e:?}"))
}

fn body(shape: Shape, json: &[u8]) -> Result<Body, String> {
    let v: Value = serde_json::from_slice(json).map_err(|e| e.to_string())?;
    Ok(match shape {
        Shape::Hello => Body::Hello(Hello {
            name: text_of(&v, "name")?,
            version: number_of(&v, "version")? as u16,
            platform: text_or_empty(&v, "platform")?,
        }),
        Shape::PairRequest => Body::PairRequest(PairRequest {
            name: text_of(&v, "name")?,
            platform: text_or_empty(&v, "platform")?,
        }),
        Shape::PairReject => Body::PairReject { reason: text_or_empty(&v, "reason")? },
        Shape::Text => Body::Text(TextMsg {
            id: id_of(&v)?,
            ts: number_of(&v, "ts")?,
            text: text_of(&v, "text")?,
        }),
        Shape::IdOnly => Body::IdOnly(IdOnly { id: id_of(&v)? }),
        Shape::FileOffer => Body::FileOffer(FileOffer {
            id: id_of(&v)?,
            name: text_of(&v, "name")?,
            size: number_of(&v, "size")?,
            sha256: text_of(&v, "sha256")?,
            mime: text_or_empty(&v, "mime")?,
        }),
        Shape::IdReason => Body::IdReason(IdReason {
            id: id_of(&v)?,
            reason: text_of(&v, "reason")?,
        }),
        Shape::FileDone => Body::FileDone(FileDone {
            id: id_of(&v)?,
            sha256: text_of(&v, "sha256")?,
        }),
    })
}

fn decode(buf: &[u8]) -> Result<Message, ProtoError> {
    let parsed = match Message::shape(buf) {
        Some(shape) => body(shape, &buf[1..]),
        None => Err("nothing to parse".to_string()),
    };
    Message::decode(buf, parsed)
}

fn offer(size: u64, sha: &str) -> Vec<u8> {
    let mut m = serde_json::Map::new();
    m.insert("id".into(), Value::from("00000000000000000000000000000000"));
    m.insert("name".into(), Value::from("a.txt"));
    m.insert("size".into(), Value::from(size));
    m.insert("sha256".into(), Value::from(sha));
    let mut buf = vec![ty::FILE_OFFER];
    buf.extend(serde_json::to_vec(&Value::Object(m)).unwrap());
    buf
}

#[test]
fn roundtrip_text() {
    let m = Message::Text(TextMsg {
        id: TransferId::random(),
        ts: 1,
        text: "привет".into(),
    });
    let enc = m.encode().unwrap();
    match decode(&enc).unwrap() {
        Message::Text(t) => assert_eq!(t.text, "привет"),
        _ => panic!("wrong type"),
    }
}

#[test]
fn roundtrip_chunk() {
    let id = TransferId::random();
    let m = Message::FileChunk {
        id,
        offset: 4096,
        data: vec![7u8; 1000],
    };
    let enc = m.encode().unwrap();
    match decode(&enc).unwrap() {
        Message::FileChunk {
            id: got,
            offset,
            data,
        } => {
            assert_eq!(got, id);
            assert_eq!(offset, 4096);
            assert_eq!(data.len(), 1000);
        }
        _ => panic!("wrong type"),
    }
}

#[test]
fn rejects_oversize_text() {
    let m = Message::Text(TextMsg {
        id: TransferId::random(),
        ts: 0,
        text: "a".repeat(MAX_TEXT_CHARS + 1),
    });
    let enc = m.encode().unwrap();
    assert!(decode(&enc).is_err());
}

#[test]
fn rejects_bad_hash_and_size() {
    assert!(decode(&offer(1, "zz")).is_err());
    assert!(decode(&offer(MAX_FILE_SIZE + 1, &"0".repeat(64))).is_err());
    assert!(decode(&offer(MAX_FILE_SIZE, &"0".repeat(64))).is_ok());
}

#[test]
fn unpaired_peers_cannot_send_data() {
    assert!(!Message::Text(TextMsg {
        id: TransferId::random(),
        ts: 0,
        text: "x".into()
    })
    .allowed_before_pairing());
    assert!(!Message::FileChunk {
        id: TransferId::random(),
        offset: 0,
        data: vec![]
    }
    .allowed_before_pairing());
    assert!(Message::Ping.allowed_before_pairing());
    assert!(Message::PairAccept.allowed_before_pairing());
}

#[test]
fn unknown_type_is_rejected() {
    assert!(decode(&[0xEE, 1, 2, 3]).is_err());
    assert!(decode(&[]).is_err());
}

#[test]
fn each_error_has_its_input() {
    assert!(matches!(decode(&[]), Err(ProtoError::Empty)));
    assert!(matches!(decode(&[0xEE]), Err(ProtoError::UnknownType(0xEE))));
    let mut big = vec![ty::TEXT];
    big.extend(vec![b' '; MAX_CONTROL_JSON + 1]);
    assert!(matches!(decode(&big), Err(ProtoError::TooLarge(n)) if n == MAX_CONTROL_JSON + 1));
    assert!(matches!(
        decode(&[ty::FILE_CHUNK, 1, 2]),
        Err(ProtoError::Malformed("file chunk header"))
    ));
    let mut far = vec![ty::FILE_CHUNK];
    far.extend([0u8; 16]);
    far.extend((MAX_FILE_SIZE + 1).to_be_bytes());
    assert!(matches!(decode(&far), Err(ProtoError::Malformed("chunk offset"))));
    assert!(matches!(decode(&[ty::TEXT, b'{']), Err(ProtoError::Json(_))));
    assert_eq!(ProtoError::Empty.text(), "empty frame");
    assert_eq!(ProtoError::UnknownType(0xEE).text(), "unknown message type 0xee");
    assert_eq!(ProtoError::TooLarge(70000).text(), "frame too large: 70000 bytes");
    assert_eq!(ProtoError::Malformed("text length").text(), "malformed text length");
    assert_eq!(ProtoError::Json("x".into()).text(), "json: x");
}

#[test]
fn too_large_a_message_is_not_encoded() {
    let m = Message::FileChunk {
        id: TransferId::random(),
        offset: 0,
        data: vec![0; MAX_PLAINTEXT],
    };
    assert!(matches!(m.encode(), Err(ProtoError::TooLarge(n)) if n == MAX_PLAINTEXT + 25));
}

#[test]
fn every_message_comes_back() {
    let id = TransferId([0x5a; 16]);
    let sha = "0123456789abcdef".repeat(4);
    let reason = IdReason { id, reason: "нет \"места\"\n\u{1}".into() };
    let all = vec![
        Message::Hello(Hello { name: "ПК\\".into(), version: 1, platform: "windows".into() }),
        Message::Ping,
        Message::Pong,
        Message::PairRequest(PairRequest { name: "n".into(), platform: String::new() }),
        Message::PairAccept,
        Message::PairReject { reason: "r".into() },
        Message::Text(TextMsg { id, ts: u64::MAX, text: "a\tb".into() }),
        Message::TextAck { id },
        Message::FileOffer(FileOffer {
            id,
            name: "f".into(),
            size: 3,
            sha256: sha.clone(),
            mime: "m".into(),
        }),
        Message::FileAccept { id },
        Message::FileReject(reason.clone()),
        Message::FileChunk { id, offset: 9, data: vec![1, 2, 3] },
        Message::FileDone(FileDone { id, sha256: sha }),
        Message::FileError(reason.clone()),
        Message::FileCancel(reason),
    ];
    for m in all {
        let wire = m.encode().unwrap();
        assert_eq!(wire[0], m.type_byte());
        let back = decode(&wire).unwrap();
        assert_eq!(format!("{back:?}"), format!("{m:?}"));
    }
}

#[test]
fn control_messages_are_json() {
    let id = TransferId([1; 16]);
    let m = Message::Text(TextMsg { id, ts: 7, text: "\"\\/\u{8}\u{1f}é".into() });
    let wire = m.encode().unwrap();
    assert_eq!(
        std::str::from_utf8(&wire[1..]).unwrap(),
        "{\"id\":\"01010101010101010101010101010101\",\"ts\":7,\"text\":\"\\\"\\\\/\\b\\u001fé\"}"
    );
}

#[test]
fn transfer_ids_are_written_in_hex() {
    let id = TransferId([0xde; 16]);
    assert_eq!(id.text(), "de".repeat(16));
    assert_eq!(id.short(), "dededede");
    assert!(matches!(TransferId::from_hex(&id.text()), Ok(i) if i == id));
    assert!(matches!(TransferId::from_hex("zz"), Err(TransferIdError::Hex(_))));
    assert!(matches!(TransferId::from_hex("abcd"), Err(TransferIdError::Length)));
    assert_ne!(TransferId::random(), TransferId::random());
    assert_eq!(TransferId([0, 0, 0, 0, 0, 0, 0, 0, 0, 0, 0, 0, 0, 0, 1, 2]).key(), 258);
}

#[test]
fn answers_with_long_reasons_are_read() {
    let id = TransferId([4; 16]);
    let reason = "\u{1}".repeat(2000);
    let m = Message::FileError(IdReason { id, reason: reason.clone() });
    match decode(&m.encode().unwrap()) {
        Ok(Message::FileError(r)) => assert_eq!((r.id, r.reason), (id, reason)),
        _ => panic!("not read"),
    }
    assert!(matches!(decode(&Message::Ping.encode().unwrap()), Ok(Message::Ping)));
    assert!(matches!(
        decode(&Message::FileAccept { id }.encode().unwrap()),
        Ok(Message::FileAccept { id: i }) if i == id
    ));
}
