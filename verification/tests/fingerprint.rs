use blake2::{Blake2s256, Digest};
use syncmob::security::{device_id, fingerprint, sas_code, DeviceId};
use syncmob::security::fingerprint::keys_equal;

#[test]
fn stable_and_domain_separated() {
    let pk = [7u8; 32];
    assert_eq!(device_id(&pk), device_id(&pk));
    assert_eq!(fingerprint(&pk), fingerprint(&pk));
    // Same input, different domains => different outputs.
    assert_ne!(
        hex::encode(device_id(&pk).as_bytes()),
        fingerprint(&pk).replace(' ', "")
    );
    assert_ne!(fingerprint(&pk), sas_code(&pk));
}

#[test]
fn different_keys_differ() {
    assert_ne!(device_id(&[1u8; 32]), device_id(&[2u8; 32]));
    assert_ne!(fingerprint(&[1u8; 32]), fingerprint(&[2u8; 32]));
    assert_ne!(sas_code(&[1u8; 32]), sas_code(&[2u8; 32]));
}

#[test]
fn formats() {
    let fp = fingerprint(&[0u8; 32]);
    assert_eq!(fp.len(), 8 * 4 + 7);
    assert_eq!(fp.split(' ').count(), 8);
    let sas = sas_code(&[0u8; 32]);
    assert_eq!(sas.len(), 9);
    assert!(sas.chars().all(|c| c.is_ascii_digit() || c == ' '));
}

#[test]
fn device_id_roundtrip() {
    let id = device_id(&[3u8; 32]);
    assert_eq!(DeviceId::parse(&id.text()), Some(id));
    assert_eq!(DeviceId::parse("nothex"), None);
    assert_eq!(DeviceId::parse("aabb"), None);
}

#[test]
fn constant_time_compare() {
    assert!(keys_equal(&[1, 2, 3], &[1, 2, 3]));
    assert!(!keys_equal(&[1, 2, 3], &[1, 2, 4]));
    assert!(!keys_equal(&[1, 2, 3], &[1, 2]));
}

#[test]
fn digests_are_those_of_blake2s() {
    let pk = [7u8; 32];
    let mut h = Blake2s256::new();
    h.update(b"SyncMob/1 device-id");
    h.update(pk);
    let d: Vec<u8> = h.finalize().to_vec();
    assert_eq!(device_id(&pk).as_bytes()[..], d[..8]);

    let mut h = Blake2s256::new();
    h.update(b"SyncMob/1 fingerprint");
    h.update(pk);
    let d: Vec<u8> = h.finalize().to_vec();
    assert_eq!(
        fingerprint(&pk).replace(' ', ""),
        hex::encode_upper(&d[..16])
    );

    let mut h = Blake2s256::new();
    h.update(b"SyncMob/1 sas");
    h.update(pk);
    let d: Vec<u8> = h.finalize().to_vec();
    let mut head = [0u8; 8];
    head.copy_from_slice(&d[..8]);
    let v = u64::from_be_bytes(head) % 100_000_000;
    assert_eq!(sas_code(&pk), format!("{:04} {:04}", v / 10_000, v % 10_000));
}

#[test]
fn identifiers_are_read_in_either_case() {
    let id = DeviceId([0xab, 0xcd, 0xef, 1, 2, 3, 4, 5]);
    assert_eq!(id.text(), "abcdef0102030405");
    assert_eq!(DeviceId::parse("ABCDEF0102030405"), Some(id));
    assert_eq!(id.key(), 0xabcd_ef01_0203_0405);
}
