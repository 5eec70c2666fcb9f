use base64::engine::general_purpose::STANDARD;
use base64::Engine;
use serde_json::Value;
use syncmob::security::keystore::{KeystoreState, Stored, StoredKey};
use syncmob::security::{Identity, KeystoreError, Protection};

fn file_of(k: &StoredKey) -> Vec<u8> {
    let mut m = serde_json::Map::new();
    m.insert("version".into(), Value::from(k.version));
    m.insert("protection".into(), Value::from(k.protection.clone()));
    m.insert("public".into(), Value::from(k.public.clone()));
    if let Some(s) = &k.salt {
        m.insert("salt".into(), Value::from(s.clone()));
    }
    if let Some(n) = &k.nonce {
        m.insert("nonce".into(), Value::from(n.clone()));
    }
    m.insert("secret".into(), Value::from(k.secret.clone()));
    serde_json::to_vec(&Value::Object(m)).unwrap()
}

fn read(raw: &[u8]) -> Stored<StoredKey> {
    let v: Value = match serde_json::from_slice(raw) {
        Ok(v) => v,
        Err(_) => return Stored::Malformed,
    };
    let text = |key: &str| v.get(key).and_then(|x| x.as_str()).map(|s| s.to_string());
    Stored::Parsed(StoredKey {
        version: v.get("version").and_then(|x| x.as_u64()).unwrap() as u16,
        protection: text("protection").unwrap(),
        public: text("public").unwrap(),
        salt: text("salt"),
        nonce: text("nonce"),
        secret: text("secret").unwrap(),
    })
}

#[test]
fn generate_is_random() {
    let a = Identity::generate().unwrap();
    let b = Identity::generate().unwrap();
    assert_eq!(a.public_key().len(), 32);
    assert_ne!(a.public_key(), b.public_key());
}

#[test]
fn keystore_encrypted_roundtrip() {
    let mut id = Identity::generate().unwrap();
    let pk = id.public_key().to_vec();
    let sk = id.private_key().to_vec();
    let stored = id.save(Some("correct horse battery staple")).unwrap();
    let raw = file_of(&stored);

    assert_eq!(Identity::state(&read(&raw)), KeystoreState::Encrypted);
    // The private key must not appear in the file.
    assert!(!raw.windows(32).any(|w| w == sk.as_slice()));
    assert!(!String::from_utf8_lossy(&raw).contains(&STANDARD.encode(&sk)));

    let loaded = Identity::load(read(&raw), Some("correct horse battery staple")).unwrap();
    assert_eq!(loaded.public_key(), &pk[..]);
    assert_eq!(loaded.private_key(), &sk[..]);
    assert_eq!(loaded.protection(), Protection::Passphrase);
}

#[test]
fn wrong_passphrase_is_rejected() {
    let mut id = Identity::generate().unwrap();
    let stored = id.save(Some("right")).unwrap();
    assert!(matches!(
        Identity::load(Stored::Parsed(stored.clone()), Some("wrong")),
        Err(KeystoreError::WrongPassphrase)
    ));
    assert!(matches!(
        Identity::load(Stored::Parsed(stored), None),
        Err(KeystoreError::NeedPassphrase)
    ));
}

#[test]
fn tampering_with_public_key_is_detected() {
    let mut id = Identity::generate().unwrap();
    let mut stored = id.save(Some("pass")).unwrap();
    stored.public = STANDARD.encode([9u8; 32]);
    assert!(matches!(
        Identity::load(Stored::Parsed(stored), Some("pass")),
        Err(KeystoreError::WrongPassphrase)
    ));
}

#[test]
fn plaintext_roundtrip() {
    let mut id = Identity::generate().unwrap();
    let sk = id.private_key().to_vec();
    let raw = file_of(&id.save(None).unwrap());
    assert_eq!(Identity::state(&read(&raw)), KeystoreState::Plaintext);
    let loaded = Identity::load(read(&raw), None).unwrap();
    assert_eq!(loaded.private_key(), &sk[..]);
    assert_eq!(loaded.protection(), Protection::Plain);
}

#[test]
fn subkeys_are_domain_separated() {
    let id = Identity::generate().unwrap();
    let a = id.derive_subkey(b"trust");
    let b = id.derive_subkey(b"other");
    assert!(!a.same_as(&b));
    assert!(a.same_as(&id.derive_subkey(b"trust")));
    assert!(!a.same_as(&Identity::generate().unwrap().derive_subkey(b"trust")));
}

#[test]
fn debug_never_leaks_secret() {
    let id = Identity::generate().unwrap();
    let s = id.describe();
    assert!(s.contains("redacted"));
    assert!(!s.contains(&hex::encode(id.private_key())));
}

#[test]
fn unreadable_keystores_are_told_apart() {
    assert_eq!(Identity::state(&Stored::NotFound), KeystoreState::Missing);
    assert!(matches!(
        Identity::load(Stored::NotFound, None),
        Err(KeystoreError::NotFound)
    ));
    assert!(matches!(
        Identity::load(Stored::Failed("denied".into()), None),
        Err(KeystoreError::Io(why)) if why == "denied"
    ));
    assert!(matches!(
        Identity::load(Stored::Malformed, None),
        Err(KeystoreError::Corrupt("json"))
    ));
    let mut id = Identity::generate().unwrap();
    let good = id.save(None).unwrap();
    let mut odd = good.clone();
    odd.version = 9;
    assert!(matches!(
        Identity::load(Stored::Parsed(odd), None),
        Err(KeystoreError::Version(9))
    ));
    let mut odd = good.clone();
    odd.public = STANDARD.encode([1u8; 5]);
    assert!(matches!(
        Identity::load(Stored::Parsed(odd), None),
        Err(KeystoreError::Corrupt("public length"))
    ));
    let mut odd = good.clone();
    odd.secret = "***".into();
    assert!(matches!(
        Identity::load(Stored::Parsed(odd), None),
        Err(KeystoreError::Corrupt("secret"))
    ));
    assert!(matches!(
        Identity::load(Stored::Parsed(good.clone()), Some("pass")),
        Err(KeystoreError::UnexpectedPassphrase)
    ));
    let mut odd = good;
    odd.protection = "unknown".into();
    let e = match Identity::load(Stored::Parsed(odd), None) {
        Err(e) => e,
        Ok(_) => panic!("loaded"),
    };
    assert_eq!(e.text(), "keystore is corrupt: protection");
}

#[test]
fn public_key_belongs_to_the_private_key() {
    let id = Identity::generate().unwrap();
    let mut sk = [0u8; 32];
    sk.copy_from_slice(id.private_key());
    let secret = x25519_dalek::StaticSecret::from(sk);
    assert_eq!(
        id.public_key(),
        x25519_dalek::PublicKey::from(&secret).as_bytes()
    );
}

#[test]
fn the_key_is_wrapped_under_passphrase_salt_and_nonce() {
    let mut id = Identity::generate().unwrap();
    let salt = [3u8; 16];
    let nonce = [4u8; 24];
    let stored = id.save_with(Some("pass phrase"), &salt, &nonce).unwrap();
    assert_eq!(stored.salt, Some(STANDARD.encode(salt)));
    assert_eq!(stored.nonce, Some(STANDARD.encode(nonce)));
    let again = id.save_with(Some("pass phrase"), &salt, &nonce).unwrap();
    assert_eq!(stored.secret, again.secret);
    let other = id.save_with(Some("pass phrase"), &[5u8; 16], &nonce).unwrap();
    assert_ne!(stored.secret, other.secret);
    assert_eq!(STANDARD.decode(stored.secret).unwrap().len(), 48);
}

#[test]
fn an_empty_passphrase_still_encrypts() {
    let mut id = Identity::generate().unwrap();
    let pk = id.public_key().to_vec();
    let sk = id.private_key().to_vec();
    let raw = file_of(&id.save(Some("")).unwrap());
    assert_eq!(id.protection(), Protection::Passphrase);
    assert_eq!(id.public_key(), &pk[..]);
    assert_eq!(id.private_key(), &sk[..]);
    assert_eq!(Identity::state(&read(&raw)), KeystoreState::Encrypted);
    assert!(!String::from_utf8_lossy(&raw).contains(&STANDARD.encode(&sk)));
    let loaded = Identity::load(read(&raw), Some("")).unwrap();
    assert_eq!(loaded.private_key(), &sk[..]);
    assert_eq!(loaded.protection(), Protection::Passphrase);
    assert!(matches!(
        Identity::load(read(&raw), None),
        Err(KeystoreError::NeedPassphrase)
    ));
    assert!(matches!(
        Identity::load(read(&raw), Some("x")),
        Err(KeystoreError::WrongPassphrase)
    ));
}
