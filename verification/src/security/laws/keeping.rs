//! What is written to disk and read back, and what a record tells.

use vstd::prelude::*;
use vstd::utf8::*;
use crate::bytes;
use crate::codec;
use crate::crypto;
use crate::crypto::Secret;
use crate::engine::laws::talking;
use crate::security::fingerprint;
use crate::security::fingerprint::DeviceId;
use crate::security::keystore;
use crate::security::keystore::{Identity, KeystoreError, Protection, Stored, StoredKey};
use crate::security::trust;
use crate::security::trust::{TrustError, TrustStore, TrustedDevice};
use crate::text;

verus! {

/// A pairing is recorded at whatever time it is: its key is authorised under its
/// name, what was decided about its files stays, and a new device is asked.
/// Others are not concerned. It fails for a key of another length, and for a new
/// device once there are 256; then nothing changes.
pub proof fn law_pairing_is_recorded_now(
    s: &mut TrustStore,
    key: &[u8],
    name: &str,
    r: Result<(), TrustError>,
    other: Seq<u8>,
)
    requires
        call_ensures(TrustStore::add, (s, key, name), r),
        trust::in_order(old(s).spec_devices()),
        other != key@,
    ensures
        final(s).spec_get(other) == old(s).spec_get(other),
        r is Ok <==> key@.len() == 32 && (old(s).spec_get(key@) is Some || old(s).spec_devices().len() < 256),
        r is Err ==> final(s).spec_devices() == old(s).spec_devices(),
        r is Ok ==> final(s).authorises(key@),
        r is Ok ==> (final(s).spec_get(key@) matches Some(b) && {
            &&& !b.blocked
            &&& talking::is_short_line_of(b.name@, name@, 64)
            &&& b.auto_accept_files == (old(s).spec_get(key@) matches Some(a)
                && a.auto_accept_files)
            &&& old(s).spec_get(key@) matches Some(a) ==> b.added_at_ms == a.added_at_ms
            &&& old(s).spec_get(key@) is None ==> b.added_at_ms == b.last_seen_ms
        }),
{
    let pre = old(s).spec_devices();
    let post = final(s).spec_devices();
    let now = choose|now: u64| #[trigger] trust::added(pre, post, key@, name@, now, r);
    trust::law_pairing_leaves_others(pre, post, key@, name@, now, r, other);
    if r is Ok {
        assert(r == Ok::<(), TrustError>(()));
        trust::lemma_paired_record(pre, post, key@, name@, now);
        trust::lemma_slot_within(pre, codec::b64(false, key@));
        talking::lemma_clamped_is_line(name@, 64);
    }
}

/// A device that is seen keeps what was decided about it; only its name, if it
/// tells one, and the time change.
pub proof fn law_seen_device_is_noted_now(
    s: &mut TrustStore,
    key: &[u8],
    name: &str,
    other: Seq<u8>,
)
    requires
        call_ensures(TrustStore::touch, (s, key, name), ()),
        trust::in_order(old(s).spec_devices()),
        other != key@,
    ensures
        final(s).spec_get(other) == old(s).spec_get(other),
        final(s).authorises(key@) == old(s).authorises(key@),
        match old(s).spec_get(key@) {
            Some(a) => final(s).spec_get(key@) matches Some(b) && {
                &&& b.blocked == a.blocked
                &&& b.auto_accept_files == a.auto_accept_files
                &&& b.public_key == a.public_key
                &&& b.added_at_ms == a.added_at_ms
                &&& name@.len() == 0 ==> b.name == a.name
                &&& name@.len() > 0 ==> talking::is_short_line_of(b.name@, name@, 64)
            },
            None => final(s).spec_devices() == old(s).spec_devices(),
        },
{
    let pre = old(s).spec_devices();
    let post = final(s).spec_devices();
    let now = choose|now: u64|
        trust::changed(pre, post, key@, #[trigger] trust::touched_at(name@, now));
    let step = trust::touched_at(name@, now);
    trust::lemma_changed(pre, post, key@, step, other);
    if let Some(a) = old(s).spec_get(key@) {
        assert(step(a, final(s).spec_get(key@)->0));
    }
    talking::lemma_clamped_is_line(name@, 64);
}

/// The list holds as many records as are counted.
pub proof fn law_records_are_counted(
    s: &TrustStore,
    n: usize,
    none: bool,
    all: Vec<TrustedDevice>,
    fresh: TrustStore,
)
    requires
        call_ensures(TrustStore::len, (s,), n),
        call_ensures(TrustStore::is_empty, (s,), none),
        call_ensures(TrustStore::list, (s,), all),
        call_ensures(TrustStore::new, (), fresh),
    ensures
        n == all@.len(),
        none <==> n == 0,
        fresh.spec_devices().len() == 0,
{
}

/// Where no record is found for a device, none in the list has a key of it.
pub proof fn law_no_record_is_no_record(
    s: &TrustStore,
    id: DeviceId,
    r: Option<&TrustedDevice>,
    all: Vec<TrustedDevice>,
    i: int,
)
    requires
        call_ensures(TrustStore::by_device_id, (s, id), r),
        r is None,
        call_ensures(TrustStore::list, (s,), all),
        0 <= i < all@.len(),
    ensures
        all@[i].spec_key() matches Some(k) ==> fingerprint::device_bytes(k) != id.0@,
{
    if all@[i].spec_key() is Some && fingerprint::device_bytes(all@[i].spec_key()->0) == id.0@ {
        lemma_first(*s, id, i);
        assert(s.lacks(id));
    }
}

proof fn lemma_first(s: TrustStore, id: DeviceId, i: int)
    requires
        0 <= i < s.spec_devices().len(),
        s.spec_devices()[i].spec_key() matches Some(k) && fingerprint::device_bytes(k) == id.0@,
    ensures
        exists|j: int| #[trigger] s.first_of(id, j),
    decreases i,
{
    let ds = s.spec_devices();
    if exists|j: int|
        0 <= j < i && ((#[trigger] ds[j]).spec_key() matches Some(k) && fingerprint::device_bytes(k)
            == id.0@) {
        let j = choose|j: int|
            0 <= j < i && ((#[trigger] ds[j]).spec_key() matches Some(k)
                && fingerprint::device_bytes(k) == id.0@);
        lemma_first(s, id, j);
    } else {
        assert(s.first_of(id, i));
    }
}

/// A record tells its key if it is written in base64 and has 32 bytes; its
/// identifier and its fingerprint are those of the key. A copy is equal.
pub proof fn law_records_tell_their_key(
    d: &TrustedDevice,
    written: &str,
    read: Option<Vec<u8>>,
    key: Option<Vec<u8>>,
    id: Option<DeviceId>,
    shown: String,
    key_bytes: &[u8],
    of_key: DeviceId,
    of_shown: String,
    copy: TrustedDevice,
)
    requires
        written@ == d.public_key@,
        call_ensures(keystore::read_b64, (written,), read),
        call_ensures(TrustedDevice::key_bytes, (d,), key),
        call_ensures(TrustedDevice::device_id, (d,), id),
        call_ensures(TrustedDevice::fingerprint, (d,), shown),
        key matches Some(k) ==> key_bytes@ == k@,
        call_ensures(fingerprint::device_id, (key_bytes,), of_key),
        call_ensures(fingerprint::fingerprint, (key_bytes,), of_shown),
        call_ensures(TrustedDevice::copy, (d,), copy),
    ensures
        key is Some <==> (read matches Some(b) && b@.len() == 32),
        key matches Some(k) ==> k@ == read->0@,
        id is Some <==> key is Some,
        id matches Some(i) ==> i.0@ == of_key.0@,
        key is Some ==> shown@ == of_shown@,
        key is None ==> shown@.len() == 0,
        copy == *d,
{
}

/// Two keys are equal if all their bytes are.
pub proof fn law_equal_keys(a: &[u8], b: &[u8], r: bool)
    requires
        call_ensures(fingerprint::keys_equal, (a, b), r),
    ensures
        r <==> a@ == b@,
{
}

/// An identifier is read as the one that was written, in whatever case; its
/// number and its bytes are its own.
pub proof fn law_device_identifiers(
    id: &DeviceId,
    other: &DeviceId,
    shown: String,
    s: &str,
    r: Option<DeviceId>,
    k: u64,
    l: u64,
    b: &[u8; 8],
)
    requires
        call_ensures(DeviceId::text, (id,), shown),
        s@ == shown@,
        call_ensures(DeviceId::parse, (s,), r),
        call_ensures(DeviceId::key, (id,), k),
        call_ensures(DeviceId::key, (other,), l),
        call_ensures(DeviceId::as_bytes, (id,), b),
    ensures
        r matches Some(i) && i == *id,
        shown@.len() == 16,
        k == l <==> *id == *other,
        b@ == id.0@,
{
    codec::lemma_hex_len(id.0@);
    codec::lemma_hex_is_lower(id.0@);
    if let Some(i) = r {
        fingerprint::law_device_id_round_trip(*id, i);
    }
    if k == l {
        fingerprint::lemma_device_key_injective(*id, *other);
    }
}

/// What is no identifier of eight bytes in hexadecimal is not read as one.
pub proof fn law_what_is_no_identifier(s: &str, r: Option<DeviceId>)
    requires
        call_ensures(DeviceId::parse, (s,), r),
        s@.len() != 16 || exists|i: int|
            0 <= i < s@.len() && !('0' <= #[trigger] s@[i] <= '9' || 'a' <= s@[i] <= 'f' || 'A'
                <= s@[i] <= 'F'),
    ensures
        r is None,
{
    if let Some(id) = r {
        codec::lemma_hex_len(id.0@);
        codec::lemma_hex_digits(id.0@);
        let l = text::lower_all(s@);
        assert(l.len() == s@.len());
        assert forall|i: int| 0 <= i < s@.len() implies '0' <= #[trigger] s@[i] <= '9' || 'a'
            <= s@[i] <= 'f' || 'A' <= s@[i] <= 'F' by {
            assert(l[i] == text::lower(s@[i]));
            assert(codec::hex(id.0@)[i] == l[i]);
        }
    }
}

/// A keystore that was saved is opened by what it was saved with.
pub proof fn law_saved_identity_is_loaded_now(
    id: &mut Identity,
    pass: Option<&str>,
    k: StoredKey,
    loaded: Result<Identity, KeystoreError>,
    other: Result<Identity, KeystoreError>,
)
    requires
        call_ensures(Identity::save, (id, pass), Ok::<StoredKey, KeystoreError>(k)),
        old(id).spec_private().len() == 32,
        old(id).spec_public().len() == 32,
        call_ensures(Identity::load, (Stored::Parsed(k), pass), loaded),
        call_ensures(Identity::load, (Stored::Parsed(k), None), other),
    ensures
        loaded matches Ok(l) && l.spec_private() == old(id).spec_private() && l.spec_public()
            == old(id).spec_public() && (l.spec_protection() == Protection::Passphrase) == (
        pass is Some),
        pass is Some ==> (other matches Err(e) && e == KeystoreError::NeedPassphrase),
        final(id).spec_private() == old(id).spec_private(),
        final(id).spec_public() == old(id).spec_public(),
        (final(id).spec_protection() == Protection::Passphrase) == (pass is Some),
{
    if let Some(p) = pass {
        let (salt, nonce) = choose|salt: Seq<u8>, nonce: Seq<u8>| #[trigger]
            keystore::locked_by(
                k,
                old(id).spec_private(),
                old(id).spec_public(),
                p@,
                salt,
                nonce,
            );
        keystore::law_locked_keystore_opens(
            k,
            p@,
            old(id).spec_private(),
            old(id).spec_public(),
            salt,
            nonce,
        );
    } else {
        keystore::law_unlocked_keystore_opens(
            k,
            old(id).spec_private(),
            old(id).spec_public(),
            Seq::empty(),
        );
        keystore::lemma_plain_is_not_locked();
    }
}

/// A passphrase for a key in the clear is an error, and so is a file in another
/// format or with keys that cannot be read.
pub proof fn law_what_is_no_keystore(
    k: StoredKey,
    pass: Option<&str>,
    public: &str,
    key: Option<Vec<u8>>,
    r: Result<Identity, KeystoreError>,
)
    requires
        call_ensures(Identity::load, (Stored::Parsed(k), pass), r),
        public@ == k.public@,
        call_ensures(keystore::read_b64, (public,), key),
    ensures
        k.version != 1 ==> (r matches Err(KeystoreError::Version(v)) && v == k.version),
        k.version == 1 && !(key matches Some(b) && b@.len() == 32) ==> (r matches Err(e)
            && e is Corrupt),
        k.version == 1 && k.protection@ == "plaintext"@ && pass is Some ==> (r matches Err(e) && (
        e is UnexpectedPassphrase || e is Corrupt)),
        r matches Ok(id) ==> id.spec_public() == key->0@ && id.spec_private().len() == 32
            && k.version == 1 && (k.protection@ == "plaintext"@ || k.protection@
            == "argon2id-xchacha20poly1305"@),
{
}

/// A description never holds more than the identifier and how the key is
/// protected.
pub proof fn law_description_of_an_identity(
    id: &Identity,
    device: &DeviceId,
    shown: String,
    protection: Protection,
    r: String,
)
    requires
        call_ensures(Identity::describe, (id,), r),
        call_ensures(Identity::device_id, (id,), *device),
        call_ensures(DeviceId::text, (device,), shown),
        call_ensures(Identity::protection, (id,), protection),
    ensures
        r@ == "Identity { device_id: \""@ + shown@ + "\", protection: "@ + (if protection
            == Protection::Passphrase {
            "Passphrase"@
        } else {
            "None"@
        }) + ", secret: \"<redacted>\" }"@,
{
}

/// A subkey is the digest of its domain, behind its length, and the private key.
pub proof fn law_subkeys_of_an_identity(id: &Identity, domain: &[u8], len: Vec<u8>, r: Secret)
    requires
        call_ensures(Identity::derive_subkey, (id, domain), r),
        call_ensures(bytes::write_be, (domain@.len() as u64, 4), len),
        domain@.len() <= u64::MAX,
    ensures
        crypto::secret_bytes(r) == crypto::blake2s(
            encode_utf8("SyncMob/1 subkey"@) + len@ + domain@ + id.spec_private(),
        ),
{
}

/// A store that was saved is what its identity reads again.
pub proof fn law_saved_store_is_read_back_now(
    s: &TrustStore,
    id: &Identity,
    e: trust::Envelope,
    shown: String,
    loaded: Result<Option<Vec<u8>>, TrustError>,
)
    requires
        call_ensures(TrustStore::save, (s, id), Ok::<trust::Envelope, TrustError>(e)),
        call_ensures(TrustStore::contents_text, (s,), shown),
        call_ensures(TrustStore::load, (Stored::Parsed(e), id), loaded),
    ensures
        loaded matches Ok(Some(text)) && text@ == encode_utf8(shown@),
{
    let plain = encode_utf8(trust::contents_json(s.spec_devices()));
    let nonce = choose|nonce: Seq<u8>| #[trigger]
        trust::sealed_in(e, plain, id.spec_private(), id.spec_public(), nonce);
    trust::law_sealed_store_opens(e, plain, id.spec_private(), id.spec_public(), nonce);
}

/// What is saved of a record is all of it: its key, its name, its times, and
/// what was decided about it.
pub proof fn law_contents_of_a_store(s: &TrustStore, d: TrustedDevice, r: String)
    requires
        call_ensures(TrustStore::contents_text, (s,), r),
        s.spec_devices() == seq![d],
    ensures
        r@ == "{\"devices\":["@ + ("{\"public_key\":"@ + codec::json_string(d.public_key@)
            + ",\"name\":"@ + codec::json_string(d.name@) + ",\"added_at_ms\":"@ + text::decimal(
            d.added_at_ms as nat,
        ) + ",\"last_seen_ms\":"@ + text::decimal(d.last_seen_ms as nat)
            + ",\"auto_accept_files\":"@ + (if d.auto_accept_files {
            "true"@
        } else {
            "false"@
        }) + ",\"blocked\":"@ + (if d.blocked {
            "true"@
        } else {
            "false"@
        }) + "}"@) + "]}"@,
{
    assert(s.spec_devices()[0] == d);
}

/// What was read of a store is checked record by record: one whose key cannot be
/// read is left out, and every other one is there.
pub proof fn law_which_records_are_kept(
    read: trust::Contents,
    s: TrustStore,
)
    requires
        call_ensures(TrustStore::from_contents, (Some(read),), Ok::<TrustStore, TrustError>(s)),
        read.devices@.len() == 1,
    ensures
        read.devices@[0].spec_key() is None ==> s.spec_devices().len() == 0,
        read.devices@[0].spec_key() is Some ==> s.spec_devices() == read.devices@,
{
    let ds = read.devices@;
    assert(ds.drop_last() =~= Seq::<TrustedDevice>::empty());
    reveal_with_fuel(trust::collected, 2);
    if ds[0].spec_key() is Some {
        assert(trust::in_order(ds));
        trust::law_collected_keeps_order(ds);
    }
}

/// Milliseconds are counted up to 64 bits, and none before the epoch.
pub proof fn law_milliseconds(ms: u128, r: u64, before: u64)
    requires
        call_ensures(trust::millis_to_u64, (ms,), r),
        call_ensures(trust::ms_since, (None,), before),
    ensures
        ms <= u64::MAX ==> r == ms,
        before == 0,
{
}

} // verus!
