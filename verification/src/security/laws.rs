//! What holds of the calls that guard identities and trust.
//!
//! Each law speaks of a call through what the call promises, and says of its
//! result what a user relies on.

pub mod keeping;

use vstd::prelude::*;
use vstd::utf8::*;
use crate::bytes;
use crate::codec;
use crate::crypto;
use crate::noise;
use crate::security::fingerprint;
use crate::security::fingerprint::DeviceId;
use crate::security::keystore;
use crate::security::keystore::{Identity, KeystoreError, KeystoreState, Protection, Stored, StoredKey};
use crate::security::trust;
use crate::security::trust::{TrustError, TrustStore, TrustedDevice};
use crate::text;

verus! {

/// The switch for files without asking does as it is told, on as well as off:
/// the record of the key has the new value and is otherwise as it was, and no
/// other record changes.
pub proof fn law_auto_accept_is_set(
    s: &mut TrustStore,
    key: &[u8],
    on: bool,
    other: Seq<u8>,
)
    requires
        call_ensures(TrustStore::set_auto_accept, (s, key, on), ()),
        trust::in_order(old(s).spec_devices()),
        other != key@,
    ensures
        final(s).spec_get(other) == old(s).spec_get(other),
        match old(s).spec_get(key@) {
            Some(a) => final(s).spec_get(key@) matches Some(b) && {
                &&& b.auto_accept_files == on
                &&& b.blocked == a.blocked
                &&& b.name == a.name
                &&& b.public_key == a.public_key
                &&& b.added_at_ms == a.added_at_ms
                &&& b.last_seen_ms == a.last_seen_ms
            },
            None => final(s).spec_devices() == old(s).spec_devices(),
        },
{
    let step = |a: TrustedDevice, b: TrustedDevice|
        b == TrustedDevice { auto_accept_files: on, ..a };
    assert(trust::changed(old(s).spec_devices(), final(s).spec_devices(), key@, step));
    trust::lemma_changed(old(s).spec_devices(), final(s).spec_devices(), key@, step, other);
}

/// Blocking does as it is told, and so does letting in again: a known device is
/// authorised exactly if it is not blocked, and nobody else is concerned.
pub proof fn law_blocking_is_set(s: &mut TrustStore, key: &[u8], blocked: bool, other: Seq<u8>)
    requires
        call_ensures(TrustStore::set_blocked, (s, key, blocked), ()),
        trust::in_order(old(s).spec_devices()),
        other != key@,
    ensures
        final(s).spec_get(other) == old(s).spec_get(other),
        final(s).authorises(other) == old(s).authorises(other),
        match old(s).spec_get(key@) {
            Some(a) => {
                &&& final(s).authorises(key@) == !blocked
                &&& final(s).spec_get(key@) matches Some(b) && {
                    &&& b.blocked == blocked
                    &&& b.auto_accept_files == a.auto_accept_files
                    &&& b.name == a.name
                    &&& b.public_key == a.public_key
                    &&& b.added_at_ms == a.added_at_ms
                    &&& b.last_seen_ms == a.last_seen_ms
                }
            },
            None => final(s).spec_devices() == old(s).spec_devices(),
        },
{
    let step = |a: TrustedDevice, b: TrustedDevice| b == TrustedDevice { blocked, ..a };
    assert(trust::changed(old(s).spec_devices(), final(s).spec_devices(), key@, step));
    trust::lemma_changed(old(s).spec_devices(), final(s).spec_devices(), key@, step, other);
}

/// A device that is seen is noted with the time and, if it told one, its name;
/// nothing that decides about access changes.
pub proof fn law_seen_device_is_noted(
    s: &mut TrustStore,
    key: &[u8],
    name: &str,
    now: u64,
    other: Seq<u8>,
)
    requires
        call_ensures(TrustStore::touch_at, (s, key, name, now), ()),
        trust::in_order(old(s).spec_devices()),
        other != key@,
    ensures
        final(s).spec_get(other) == old(s).spec_get(other),
        final(s).authorises(key@) == old(s).authorises(key@),
        match old(s).spec_get(key@) {
            Some(a) => final(s).spec_get(key@) matches Some(b) && {
                &&& b.last_seen_ms == now
                &&& b.blocked == a.blocked
                &&& b.auto_accept_files == a.auto_accept_files
                &&& b.public_key == a.public_key
                &&& b.added_at_ms == a.added_at_ms
                &&& name@.len() == 0 ==> b.name == a.name
                &&& 0 < name@.len() <= 64 ==> b.name@.len() == name@.len() && forall|i: int|
                    0 <= i < name@.len() ==> #[trigger] b.name@[i] == if name@[i] == '\r'
                        || name@[i] == '\n' || name@[i] == '\0' {
                        ' '
                    } else {
                        name@[i]
                    }
                &&& name@.len() > 64 ==> b.name@.len() == 65
            },
            None => final(s).spec_devices() == old(s).spec_devices(),
        },
{
    let step = |a: TrustedDevice, b: TrustedDevice| trust::touched(a, b, name@, now);
    assert(trust::changed(old(s).spec_devices(), final(s).spec_devices(), key@, step));
    trust::lemma_changed(old(s).spec_devices(), final(s).spec_devices(), key@, step, other);
}

/// A pairing is recorded: its key is authorised, under its name and time; what
/// was decided about its files stays, and a new device is asked. Others are not
/// concerned. It fails for a key of another length, and for a new device once
/// there are 256; then nothing changes.
pub proof fn law_pairing_is_recorded(
    s: &mut TrustStore,
    key: &[u8],
    name: &str,
    now: u64,
    r: Result<(), TrustError>,
    other: Seq<u8>,
)
    requires
        call_ensures(TrustStore::add_at, (s, key, name, now), r),
        trust::in_order(old(s).spec_devices()),
        other != key@,
    ensures
        final(s).spec_get(other) == old(s).spec_get(other),
        r is Ok <==> key@.len() == 32 && (old(s).spec_get(key@) is Some
            || old(s).spec_devices().len() < 256),
        r is Err ==> final(s).spec_devices() == old(s).spec_devices(),
        r is Err ==> (r->Err_0 is BadKey <==> key@.len() != 32),
        r is Err && key@.len() == 32 ==> r->Err_0 is Full,
        r is Ok ==> final(s).authorises(key@),
        r is Ok ==> (final(s).spec_get(key@) matches Some(b) && {
            &&& !b.blocked
            &&& b.last_seen_ms == now
            &&& b.added_at_ms == match old(s).spec_get(key@) {
                Some(a) => a.added_at_ms,
                None => now,
            }
            &&& b.auto_accept_files == (old(s).spec_get(key@) matches Some(a)
                && a.auto_accept_files)
            &&& name@.len() <= 64 ==> b.name@.len() == name@.len() && forall|i: int|
                0 <= i < name@.len() ==> #[trigger] b.name@[i] == if name@[i] == '\r' || name@[i]
                    == '\n' || name@[i] == '\0' {
                    ' '
                } else {
                    name@[i]
                }
            &&& name@.len() > 64 ==> b.name@.len() == 65
        }),
        r is Ok ==> final(s).spec_devices().len() == old(s).spec_devices().len() + if old(
            s,
        ).spec_get(key@) is Some {
            0int
        } else {
            1int
        },
{
    let pre = old(s).spec_devices();
    let post = final(s).spec_devices();
    trust::law_pairing_leaves_others(pre, post, key@, name@, now, r, other);
    if r is Ok {
        assert(r == Ok::<(), TrustError>(()));
        trust::lemma_paired_record(pre, post, key@, name@, now);
        trust::lemma_slot_within(pre, codec::b64(false, key@));
    }
}

/// A device that is taken out is not authorised any more, and the others are
/// not concerned. The result says whether it was there.
pub proof fn law_removal_takes_out_one(s: &mut TrustStore, key: &[u8], r: bool, other: Seq<u8>)
    requires
        call_ensures(TrustStore::remove, (s, key), r),
        trust::in_order(old(s).spec_devices()),
        other != key@,
    ensures
        r == old(s).spec_get(key@) is Some,
        final(s).spec_get(key@) is None,
        !final(s).authorises(key@),
        final(s).spec_get(other) == old(s).spec_get(other),
        final(s).authorises(other) == old(s).authorises(other),
        final(s).spec_devices().len() == old(s).spec_devices().len() - if r {
            1int
        } else {
            0int
        },
{
    let pre = old(s).spec_devices();
    let post = final(s).spec_devices();
    trust::law_removed_device_is_not_authorised(pre, post, key@, r);
    trust::law_removal_leaves_others(pre, post, key@, r, other);
    if r {
        trust::lemma_slot_within(pre, codec::b64(false, key@));
    }
}

/// The record that is found for a key is the one in the list that reads as that
/// key; a key is authorised if there is one and it is not blocked.
pub proof fn law_found_record_has_the_key(
    s: &TrustStore,
    key: &[u8],
    found: Option<&TrustedDevice>,
    allowed: bool,
    all: Vec<TrustedDevice>,
)
    requires
        call_ensures(TrustStore::get, (s, key), found),
        call_ensures(TrustStore::is_authorised, (s, key), allowed),
        call_ensures(TrustStore::list, (s,), all),
        key@.len() == 32,
    ensures
        match found {
            Some(d) => all@.contains(*d) && d.spec_key() == Some(key@) && allowed == !d.blocked,
            None => !allowed && forall|i: int|
                0 <= i < all@.len() ==> (#[trigger] all@[i]).spec_key() != Some(key@),
        },
{
    trust::lemma_lookup(all@, key@);
}

/// The record that is found for a device stands in the list and holds a key of
/// that device.
pub proof fn law_found_device_has_the_identifier(
    s: &TrustStore,
    id: DeviceId,
    d: &TrustedDevice,
    all: Vec<TrustedDevice>,
)
    requires
        call_ensures(TrustStore::by_device_id, (s, id), Some(d)),
        call_ensures(TrustStore::list, (s,), all),
    ensures
        all@.contains(*d),
        d.spec_key() matches Some(k) && fingerprint::device_bytes(k) == id.0@,
{
    let i = choose|i: int| #[trigger] s.first_of(id, i) && *d == s.spec_devices()[i];
    assert(all@[i] == *d);
}

/// The code of a session is made of its handshake hash: the first 64 bits of a
/// digest over the hash, as a number below a hundred million, with its eight
/// digits in two groups. So equal hashes give one code.
pub proof fn law_session_code_is_made_of_the_hash(hash: &[u8], code: String)
    requires
        call_ensures(fingerprint::sas_code, (hash,), code),
    ensures
        code@.len() == 9,
        code@[4] == ' ',
        digits_value(code@.take(4)) * 10_000 + digits_value(code@.skip(5)) == bytes::be_value(
            crypto::blake2s(encode_utf8("SyncMob/1 sas"@) + hash@).take(8),
        ) % 100_000_000,
{
    let v = bytes::be_value(
        crypto::blake2s(encode_utf8("SyncMob/1 sas"@) + hash@).take(8),
    ) % 100_000_000;
    fingerprint::law_sas_format(hash@);
    text::lemma_padded_len(v / 10_000, 4);
    text::lemma_padded_len(v % 10_000, 4);
    assert(code@.take(4) =~= text::padded(v / 10_000, 4));
    assert(code@.skip(5) =~= text::padded(v % 10_000, 4));
    lemma_padded_value(v / 10_000);
    lemma_padded_value(v % 10_000);
}

/// The number that four digits write.
pub open spec fn digits_value(s: Seq<char>) -> int {
    (s[0] as int - 48) * 1000 + (s[1] as int - 48) * 100 + (s[2] as int - 48) * 10 + (s[3] as int
        - 48)
}

proof fn lemma_padded_value(n: nat)
    requires
        n < 10_000,
    ensures
        digits_value(text::padded(n, 4)) == n,
{
    reveal_with_fuel(text::padded, 5);
    let a = n / 10;
    let b = a / 10;
    let c = b / 10;
    assert(text::padded(n, 4) =~= seq![
        text::digit(c % 10),
        text::digit(b % 10),
        text::digit(a % 10),
        text::digit(n % 10),
    ]);
    assert(n == 10 * a + n % 10 && a == 10 * b + a % 10 && b == 10 * c + b % 10);
}

/// The fingerprint of a key shows the first 128 bits of a digest over the key,
/// two bytes in each of eight groups.
pub proof fn law_fingerprint_shows_the_key(key: &[u8], r: String, g: int)
    requires
        call_ensures(fingerprint::fingerprint, (key,), r),
        0 <= g < 8,
    ensures
        r@.len() == 39,
        r@.subrange(5 * g, 5 * g + 4) == ({
            let d = crypto::blake2s(encode_utf8("SyncMob/1 fingerprint"@) + key@);
            seq![
                text::upper(codec::hex_digit(d[2 * g] as int / 16)),
                text::upper(codec::hex_digit(d[2 * g] as int % 16)),
                text::upper(codec::hex_digit(d[2 * g + 1] as int / 16)),
                text::upper(codec::hex_digit(d[2 * g + 1] as int % 16)),
            ]
        }),
{
    let d = crypto::blake2s(encode_utf8("SyncMob/1 fingerprint"@) + key@);
    fingerprint::law_fingerprint_format(key@);
    lemma_group_at(d, 8, g);
}

proof fn lemma_group_at(d: Seq<u8>, n: nat, g: int)
    requires
        0 <= g < n,
    ensures
        fingerprint::fingerprint_groups(d, n).len() == 5 * n - 1,
        fingerprint::fingerprint_groups(d, n).subrange(5 * g, 5 * g + 4)
            == fingerprint::fingerprint_group(d[2 * g], d[2 * g + 1]),
    decreases n,
{
    let s = fingerprint::fingerprint_groups(d, n);
    if n == 1 {
        assert(s.subrange(0, 4) =~= fingerprint::fingerprint_group(d[0], d[1]));
    } else {
        let p = fingerprint::fingerprint_groups(d, (n - 1) as nat);
        lemma_group_at(d, (n - 1) as nat, 0);
        if g < n - 1 {
            lemma_group_at(d, (n - 1) as nat, g);
            assert(s.subrange(5 * g, 5 * g + 4) =~= p.subrange(5 * g, 5 * g + 4));
        } else {
            assert(s.subrange(5 * g, 5 * g + 4) =~= fingerprint::fingerprint_group(
                d[2 * g],
                d[2 * g + 1],
            ));
        }
    }
}

/// A device is called by the first eight bytes of a digest over its key, written
/// in hexadecimal digits.
pub proof fn law_device_is_named_by_its_key(key: &[u8], id: DeviceId, written: String)
    requires
        call_ensures(fingerprint::device_id, (key,), id),
        call_ensures(DeviceId::text, (&id,), written),
    ensures
        id.0@ == crypto::blake2s(encode_utf8("SyncMob/1 device-id"@) + key@).take(8),
        written@.len() == 16,
        forall|i: int|
            0 <= i < 8 ==> #[trigger] written@[2 * i] == codec::hex_digit(id.0@[i] as int / 16)
                && written@[2 * i + 1] == codec::hex_digit(id.0@[i] as int % 16),
{
    lemma_hex_at(id.0@);
}

proof fn lemma_hex_at(s: Seq<u8>)
    ensures
        codec::hex(s).len() == 2 * s.len(),
        forall|i: int|
            0 <= i < s.len() ==> #[trigger] codec::hex(s)[2 * i] == codec::hex_digit(
                s[i] as int / 16,
            ) && codec::hex(s)[2 * i + 1] == codec::hex_digit(s[i] as int % 16),
    decreases s.len(),
{
    if s.len() > 0 {
        let t = s.drop_last();
        lemma_hex_at(t);
        assert forall|i: int| 0 <= i < s.len() implies #[trigger] codec::hex(s)[2 * i]
            == codec::hex_digit(s[i] as int / 16) && codec::hex(s)[2 * i + 1] == codec::hex_digit(
            s[i] as int % 16,
        ) by {
            if i < t.len() {
                assert(t[i] == s[i]);
                assert(codec::hex(t)[2 * i] == codec::hex_digit(t[i] as int / 16));
            }
        }
    }
}

/// A keystore that was saved gives its identity back: with the passphrase that
/// it was saved with, empty or not, and without one if none was given. Either
/// way the identity stays what it was, and the file says how it is protected.
pub proof fn law_saved_identity_is_loaded(
    id: &mut Identity,
    pass: Option<&str>,
    salt: &[u8],
    nonce: &[u8],
    saved: Result<StoredKey, KeystoreError>,
    loaded: Result<Identity, KeystoreError>,
    state: KeystoreState,
)
    requires
        call_ensures(Identity::save_with, (id, pass, salt, nonce), saved),
        old(id).spec_private().len() == 32,
        old(id).spec_public().len() == 32,
        pass matches Some(p) ==> encode_utf8(p@).len() <= 0xffff_ffff,
        saved matches Ok(k) ==> call_ensures(Identity::load, (Stored::Parsed(k), pass), loaded)
            && call_ensures(Identity::state, (&Stored::Parsed(k),), state),
    ensures
        saved is Ok,
        loaded matches Ok(l) && {
            &&& l.spec_private() == old(id).spec_private()
            &&& l.spec_public() == old(id).spec_public()
            &&& (l.spec_protection() == Protection::Passphrase) == (pass is Some)
        },
        final(id).spec_private() == old(id).spec_private(),
        final(id).spec_public() == old(id).spec_public(),
        (final(id).spec_protection() == Protection::Passphrase) == (pass is Some),
        (state == KeystoreState::Encrypted) == (pass is Some),
        (state == KeystoreState::Plaintext) == (pass is None),
{
    let k = saved->Ok_0;
    if let Some(p) = pass {
        keystore::law_locked_keystore_opens(
            k,
            p@,
            old(id).spec_private(),
            old(id).spec_public(),
            salt@,
            nonce@,
        );
    } else {
        keystore::law_unlocked_keystore_opens(
            k,
            old(id).spec_private(),
            old(id).spec_public(),
            Seq::empty(),
        );
        keystore::lemma_plain_is_not_locked();
    }
}

/// The private key stands in the file only where no passphrase was given: with
/// one, what is written is the sealed key.
pub proof fn law_key_in_the_clear_only_without_passphrase(
    id: &mut Identity,
    pass: &str,
    salt: &[u8],
    nonce: &[u8],
    saved: Result<StoredKey, KeystoreError>,
    other: Option<&str>,
    loaded: Result<Identity, KeystoreError>,
)
    requires
        call_ensures(Identity::save_with, (id, Some(pass), salt, nonce), saved),
        old(id).spec_public().len() == 32,
        old(id).spec_private().len() == 32,
        saved matches Ok(k) ==> call_ensures(Identity::load, (Stored::Parsed(k), other), loaded),
    ensures
        saved matches Ok(k) ==> {
            let key = crypto::argon2id(encode_utf8(pass@), salt@, 65536, 3, 1, 32);
            &&& key is Some
            &&& k.secret@ == codec::b64(
                false,
                crypto::xchacha_seal(
                    key->0,
                    nonce@,
                    old(id).spec_private(),
                    old(id).spec_public(),
                )->0,
            )
            &&& k.public@ == codec::b64(false, old(id).spec_public())
            &&& other is None ==> loaded == Err::<Identity, _>(KeystoreError::NeedPassphrase)
        },
{
    if let Ok(k) = saved {
        keystore::law_locked_keystore_opens(
            k,
            pass@,
            old(id).spec_private(),
            old(id).spec_public(),
            salt@,
            nonce@,
        );
    }
}

/// A missing, unreadable or malformed keystore is never taken for an identity.
pub proof fn law_unreadable_keystore_is_no_identity(
    file: Stored<StoredKey>,
    pass: Option<&str>,
    r: Result<Identity, KeystoreError>,
)
    requires
        call_ensures(Identity::load, (file, pass), r),
        !(file is Parsed),
    ensures
        match file {
            Stored::NotFound => r == Err::<Identity, _>(KeystoreError::NotFound),
            Stored::Failed(why) => r == Err::<Identity, _>(KeystoreError::Io(why)),
            _ => r == Err::<Identity, _>(KeystoreError::Corrupt("json")),
        },
{
}

/// An identity names itself by its own key, and a fresh key pair belongs
/// together.
pub proof fn law_identity_names_itself(
    id: &Identity,
    key: &[u8],
    device: DeviceId,
    of_key: DeviceId,
    shown: String,
    of_shown: String,
    fresh: Result<Identity, KeystoreError>,
)
    requires
        call_ensures(Identity::public_key, (id,), key),
        call_ensures(Identity::device_id, (id,), device),
        call_ensures(fingerprint::device_id, (key,), of_key),
        call_ensures(Identity::fingerprint, (id,), shown),
        call_ensures(fingerprint::fingerprint, (key,), of_shown),
        call_ensures(Identity::generate, (), fresh),
    ensures
        device.0@ == of_key.0@,
        shown@ == of_shown@,
        fresh matches Ok(f) ==> f.spec_public() == noise::x25519_public(f.spec_private())
            && f.spec_private().len() == 32,
{
}

/// A store that was saved by an identity is what that identity loads, and a
/// store that is not there is an empty one, not an error.
pub proof fn law_saved_store_is_read_back(
    s: &TrustStore,
    id: &Identity,
    nonce: &[u8],
    saved: Result<trust::Envelope, TrustError>,
    loaded: Result<Option<Vec<u8>>, TrustError>,
    missing: Result<Option<Vec<u8>>, TrustError>,
    read: trust::Contents,
    again: Result<TrustStore, TrustError>,
)
    requires
        call_ensures(TrustStore::save_with, (s, id, nonce), saved),
        saved matches Ok(e) ==> call_ensures(TrustStore::load, (Stored::Parsed(e), id), loaded),
        call_ensures(TrustStore::load, (Stored::NotFound, id), missing),
        read.devices@ == s.spec_devices(),
        call_ensures(TrustStore::from_contents, (Some(read),), again),
    ensures
        saved is Ok,
        loaded matches Ok(Some(text)) && text@ == encode_utf8(
            trust::contents_json(s.spec_devices()),
        ),
        missing matches Ok(None),
        again matches Ok(t) && t.spec_devices() == s.spec_devices(),
{
    let e = saved->Ok_0;
    trust::law_sealed_store_opens(
        e,
        encode_utf8(trust::contents_json(s.spec_devices())),
        id.spec_private(),
        id.spec_public(),
        nonce@,
    );
    trust::law_collected_keeps_order(s.spec_devices());
}

/// A store that cannot be opened or read is an error, never an empty store.
pub proof fn law_damaged_store_is_an_error(
    file: Stored<trust::Envelope>,
    id: &Identity,
    r: Result<Option<Vec<u8>>, TrustError>,
    garbled: Result<TrustStore, TrustError>,
)
    requires
        call_ensures(TrustStore::load, (file, id), r),
        call_ensures(TrustStore::from_contents, (None,), garbled),
        match file {
            Stored::NotFound => false,
            Stored::Parsed(e) => trust::decrypted(e, id.spec_private(), id.spec_public()) is None,
            _ => true,
        },
    ensures
        r is Err,
        garbled is Err,
{
}

} // verus!
