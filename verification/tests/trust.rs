use std::time::Duration;

use base64::engine::general_purpose::STANDARD;
use base64::Engine;
use serde_json::Value;
use syncmob::security::keystore::Stored;
use syncmob::security::trust::{
    ms_since, now_ms, Contents, Envelope, TrustError, MAX_TRUSTED_DEVICES,
};
use syncmob::security::{device_id, fingerprint, Identity, TrustStore, TrustedDevice};

fn device_of(v: &Value) -> TrustedDevice {
    let text = |k: &str| v.get(k).and_then(|x| x.as_str()).unwrap_or("").to_string();
    let number = |k: &str| v.get(k).and_then(|x| x.as_u64()).unwrap_or(0);
    let flag = |k: &str| v.get(k).and_then(|x| x.as_bool()).unwrap_or(false);
    TrustedDevice {
        public_key: text("public_key"),
        name: text("name"),
        added_at_ms: number("added_at_ms"),
        last_seen_ms: number("last_seen_ms"),
        auto_accept_files: flag("auto_accept_files"),
        blocked: flag("blocked"),
    }
}

fn contents_of(json: &[u8]) -> Option<Contents> {
    let v: Value = serde_json::from_slice(json).ok()?;
    let devices = v.get("devices")?.as_array()?.iter().map(device_of).collect();
    Some(Contents { devices })
}

fn load(file: Stored<Envelope>, id: &Identity) -> Result<TrustStore, TrustError> {
    match TrustStore::load(file, id)? {
        None => Ok(TrustStore::new()),
        Some(json) => TrustStore::from_contents(contents_of(&json)),
    }
}

fn file_of(e: &Envelope) -> Vec<u8> {
    let mut m = serde_json::Map::new();
    m.insert("version".into(), Value::from(e.version));
    m.insert("nonce".into(), Value::from(e.nonce.clone()));
    m.insert("ct".into(), Value::from(e.ct.clone()));
    serde_json::to_vec(&Value::Object(m)).unwrap()
}

#[test]
fn unpaired_key_is_not_authorised() {
    let store = TrustStore::new();
    assert!(!store.is_authorised(&[1u8; 32]));
}

#[test]
fn add_get_remove() {
    let mut s = TrustStore::new();
    s.add(&[1u8; 32], "Phone").unwrap();
    assert!(s.is_authorised(&[1u8; 32]));
    assert!(!s.is_authorised(&[2u8; 32]));
    assert_eq!(s.get(&[1u8; 32]).unwrap().name, "Phone");
    assert!(s.remove(&[1u8; 32]));
    assert!(!s.is_authorised(&[1u8; 32]));
}

#[test]
fn blocked_device_is_not_authorised() {
    let mut s = TrustStore::new();
    s.add(&[1u8; 32], "Phone").unwrap();
    s.set_blocked(&[1u8; 32], true);
    assert!(!s.is_authorised(&[1u8; 32]));
    assert!(s.get(&[1u8; 32]).is_some());
}

#[test]
fn bad_key_length_rejected() {
    let mut s = TrustStore::new();
    assert!(s.add(&[1u8; 16], "x").is_err());
    assert!(matches!(s.add(&[1u8; 16], "x"), Err(TrustError::BadKey)));
}

#[test]
fn capacity_is_bounded() {
    let mut s = TrustStore::new();
    for i in 0..MAX_TRUSTED_DEVICES {
        let mut k = [0u8; 32];
        k[0..8].copy_from_slice(&(i as u64).to_be_bytes());
        s.add(&k, "d").unwrap();
    }
    assert!(matches!(
        s.add(&[0xFFu8; 32], "overflow"),
        Err(TrustError::Full)
    ));
}

#[test]
fn trust_encrypted_roundtrip() {
    let id = Identity::generate().unwrap();

    let mut s = TrustStore::new();
    s.add(&[5u8; 32], "Pixel").unwrap();
    s.set_auto_accept(&[5u8; 32], true);
    assert!(s.can_save());
    let env = s.save(&id).unwrap();

    // Names are not readable on disk.
    let raw = file_of(&env);
    assert!(!String::from_utf8_lossy(&raw).contains("Pixel"));
    let ct = STANDARD.decode(&env.ct).unwrap();
    assert!(!String::from_utf8_lossy(&ct).contains("Pixel"));

    let loaded = load(Stored::Parsed(env), &id).unwrap();
    assert!(loaded.is_authorised(&[5u8; 32]));
    assert!(loaded.get(&[5u8; 32]).unwrap().auto_accept_files);
}

#[test]
fn another_identity_cannot_read_it() {
    let id = Identity::generate().unwrap();
    let other = Identity::generate().unwrap();
    let mut s = TrustStore::new();
    s.add(&[5u8; 32], "Pixel").unwrap();
    let env = s.save(&id).unwrap();
    assert!(matches!(
        load(Stored::Parsed(env), &other),
        Err(TrustError::Tampered)
    ));
}

#[test]
fn tampering_is_detected_not_silently_ignored() {
    let id = Identity::generate().unwrap();
    let mut env = TrustStore::new().save(&id).unwrap();
    let mut ct = STANDARD.decode(&env.ct).unwrap();
    ct[0] ^= 0x01;
    env.ct = STANDARD.encode(&ct);
    assert!(matches!(
        load(Stored::Parsed(env), &id),
        Err(TrustError::Tampered)
    ));
}

#[test]
fn missing_file_is_an_empty_store() {
    let id = Identity::generate().unwrap();
    let s = load(Stored::NotFound, &id).unwrap();
    assert!(s.is_empty());
}

#[test]
fn damaged_files_are_errors() {
    let id = Identity::generate().unwrap();
    assert!(matches!(
        load(Stored::Failed("denied".into()), &id),
        Err(TrustError::Io(why)) if why == "denied"
    ));
    assert!(matches!(load(Stored::Malformed, &id), Err(TrustError::Tampered)));
    assert!(matches!(
        TrustStore::from_contents(None),
        Err(TrustError::Tampered)
    ));
    let mut env = TrustStore::new().save(&id).unwrap();
    env.version += 1;
    assert!(load(Stored::Parsed(env), &id).is_err());
    let mut env = TrustStore::new().save(&id).unwrap();
    env.nonce = STANDARD.encode([0u8; 5]);
    assert!(load(Stored::Parsed(env), &id).is_err());
}

#[test]
fn records_are_listed_in_key_order() {
    let mut s = TrustStore::new();
    for b in [9u8, 3, 7, 1] {
        s.add_at(&[b; 32], "n", b as u64).unwrap();
    }
    let keys: Vec<String> = s.list().iter().map(|d| d.public_key.clone()).collect();
    let mut sorted = keys.clone();
    sorted.sort();
    assert_eq!(keys, sorted);
    assert_eq!(s.len(), 4);
    let d = s.by_device_id(device_id(&[7u8; 32])).unwrap();
    assert_eq!(d.key_bytes().unwrap(), vec![7u8; 32]);
    assert_eq!(d.fingerprint(), fingerprint(&[7u8; 32]));
    assert_eq!(d.added_at_ms, 7);
    assert!(s.by_device_id(device_id(&[8u8; 32])).is_none());
}

#[test]
fn pairing_again_unblocks_and_renames() {
    let mut s = TrustStore::new();
    s.add_at(&[1u8; 32], "Old", 10).unwrap();
    s.set_auto_accept(&[1u8; 32], true);
    s.set_blocked(&[1u8; 32], true);
    s.add_at(&[1u8; 32], "New", 20).unwrap();
    let d = s.get(&[1u8; 32]).unwrap();
    assert_eq!((d.name.as_str(), d.added_at_ms, d.last_seen_ms), ("New", 10, 20));
    assert!(d.auto_accept_files && !d.blocked);
    assert_eq!(s.len(), 1);
}

#[test]
fn touching_keeps_a_name_unless_another_is_told() {
    let mut s = TrustStore::new();
    s.add_at(&[1u8; 32], "Phone", 1).unwrap();
    s.touch_at(&[1u8; 32], "", 5);
    assert_eq!(s.get(&[1u8; 32]).unwrap().name, "Phone");
    assert_eq!(s.get(&[1u8; 32]).unwrap().last_seen_ms, 5);
    s.touch_at(&[1u8; 32], &"x".repeat(100), 6);
    assert_eq!(s.get(&[1u8; 32]).unwrap().name, "x".repeat(64) + "…");
    s.touch_at(&[2u8; 32], "nobody", 7);
    assert_eq!(s.len(), 1);
    assert!(!s.remove(&[2u8; 32]));
}

#[test]
fn contents_are_json() {
    let mut s = TrustStore::new();
    s.add_at(&[0u8; 32], "a\"b", 3).unwrap();
    let json = s.contents_text();
    let v: Value = serde_json::from_str(&json).unwrap();
    let d = device_of(&v.get("devices").unwrap().as_array().unwrap()[0]);
    assert_eq!(d.name, "a\"b");
    assert_eq!(d.public_key, STANDARD.encode([0u8; 32]));
    assert!(json.starts_with("{\"devices\":[{\"public_key\":\"AAAA"));
}

#[test]
fn malformed_records_are_left_out() {
    let good = device_of(&Value::Null);
    let with = |key: &str, name: &str| TrustedDevice {
        public_key: key.to_string(),
        name: name.to_string(),
        ..good.clone()
    };
    let k = STANDARD.encode([4u8; 32]);
    let s = TrustStore::from_contents(Some(Contents {
        devices: vec![with("***", "bad"), with(&k, "first"), with("AAAA", "short"), with(&k, "last")],
    }))
    .unwrap();
    assert_eq!(s.len(), 1);
    assert_eq!(s.get(&[4u8; 32]).unwrap().name, "last");
}

#[test]
fn a_nonce_fixes_the_file() {
    let mut id = Identity::generate().unwrap();
    let stored = id.save(None).unwrap();
    assert!(stored.salt.is_none());
    let s = TrustStore::new();
    let a = s.save_with(&id, &[1u8; 24]).unwrap();
    let b = s.save_with(&id, &[1u8; 24]).unwrap();
    let c = s.save_with(&id, &[2u8; 24]).unwrap();
    assert_eq!(a.ct, b.ct);
    assert_ne!(a.ct, c.ct);
    assert_eq!(
        STANDARD.decode(&a.ct).unwrap().len(),
        s.contents_text().len() + 16
    );
}

#[test]
fn the_clock_is_read_in_whole_milliseconds() {
    assert_eq!(ms_since(None), 0);
    assert_eq!(ms_since(Some(Duration::new(1, 999_999_999))), 1999);
    assert_eq!(ms_since(Some(Duration::new(0, 999_999))), 0);
    // Only the low 64 bits are kept.
    assert_eq!(ms_since(Some(Duration::from_secs(u64::MAX))), u64::MAX - 999);
    // 2020-01-01
    assert!(now_ms() > 1_577_836_800_000);
}

#[test]
fn seen_devices_are_noted_with_the_time() {
    let mut t = TrustStore::new();
    let pk = vec![5u8; 32];
    t.add_at(&pk, "old", 7).unwrap();
    t.touch(&pk, "new");
    let d = t.get(&pk).unwrap();
    assert_eq!(d.name, "new");
    assert!(d.last_seen_ms > 7);
    t.touch(&[6u8; 32], "stranger");
    assert_eq!(t.list().len(), 1);
}

#[test]
fn a_saved_store_is_loaded_with_all_fields() {
    let id = Identity::generate().unwrap();
    let mut s = TrustStore::new();
    for n in [9u8, 3, 7] {
        s.add_at(&[n; 32], &format!("\"device\" {n}\u{1f600}"), n as u64).unwrap();
    }
    s.set_auto_accept(&[3u8; 32], true);
    s.set_blocked(&[7u8; 32], true);
    s.touch_at(&[9u8; 32], "", 77);
    let loaded = load(Stored::Parsed(s.save(&id).unwrap()), &id).unwrap();
    let fields = |t: &TrustStore| -> Vec<(String, String, u64, u64, bool, bool)> {
        t.list()
            .into_iter()
            .map(|d| {
                let (a, b) = (d.added_at_ms, d.last_seen_ms);
                (d.public_key, d.name, a, b, d.auto_accept_files, d.blocked)
            })
            .collect()
    };
    assert_eq!(fields(&s).len(), 3);
    assert_eq!(fields(&loaded), fields(&s));
}
