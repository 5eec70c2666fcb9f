//! The list of devices this node has explicitly paired with.
//!
//! Membership in this store is the *only* thing that authorises a peer to send
//! text or files. The file is encrypted and authenticated with a subkey derived
//! from the identity private key, so an attacker who can write to the profile
//! directory cannot inject a trusted key without also owning the identity.

use vstd::prelude::*;
use vstd::string::*;
use vstd::utf8::*;
use crate::bytes;
use crate::codec;
use crate::crypto;
use crate::security::fingerprint;
use crate::security::fingerprint::DeviceId;
use crate::security::keystore;
use crate::security::keystore::{Identity, KeystoreError, Stored};
use crate::text;
use crate::util;

verus! {

pub const SUBKEY_DOMAIN: &'static str = "trust-store";

pub const AAD: &'static str = "SyncMob/1 trust-store";

pub const FORMAT_VERSION: u16 = 1;

/// Refuse to grow without bound; also caps the damage of a buggy UI loop.
pub const MAX_TRUSTED_DEVICES: usize = 256;

#[derive(Debug, Clone)]
pub enum TrustError {
    Tampered,
    Full,
    BadKey,
    Io(String),
    Keystore(KeystoreError),
}

impl TrustError {
    pub open spec fn message(&self) -> Seq<char> {
        match self {
            TrustError::Tampered => "trust store is corrupt or was tampered with"@,
            TrustError::Full => "trust store is full (256 devices)"@,
            TrustError::BadKey => "invalid public key"@,
            TrustError::Io(why) => "io: "@ + why@,
            TrustError::Keystore(e) => e.message(),
        }
    }

    /// The error in words.
    pub fn text(&self) -> (r: String)
        ensures
            r@ == self.message(),
    {
        match self {
            TrustError::Tampered => "trust store is corrupt or was tampered with".to_string(),
            TrustError::Full => "trust store is full (256 devices)".to_string(),
            TrustError::BadKey => "invalid public key".to_string(),
            TrustError::Io(why) => {
                let mut r = "io: ".to_string();
                r.append(why.as_str());
                r
            },
            TrustError::Keystore(e) => e.text(),
        }
    }
}

#[derive(Debug, Clone)]
pub struct TrustedDevice {
    /// Base64 of the 32 byte X25519 static public key. This is the identity.
    pub public_key: String,
    /// Last known display name. Purely cosmetic and refreshed on every
    /// connection, so it must never influence an authorisation decision.
    pub name: String,
    pub added_at_ms: u64,
    pub last_seen_ms: u64,
    /// When true, files from this device are written without asking. Off by
    /// default; the UI warns when enabling it.
    pub auto_accept_files: bool,
    /// Keeps the key on record but refuses all connections from it.
    pub blocked: bool,
}

/// A trust store file: the encrypted contents.
#[derive(Debug, Clone)]
pub struct Envelope {
    pub version: u16,
    pub nonce: String,
    pub ct: String,
}

/// What the encrypted contents hold.
#[derive(Debug, Clone)]
pub struct Contents {
    pub devices: Vec<TrustedDevice>,
}

pub struct TrustStore {
    /// In the order of their base64 public keys, each of which occurs once.
    devices: Vec<TrustedDevice>,
}

impl TrustedDevice {
    /// The public key, if the record holds a well formed one.
    pub open spec fn spec_key(&self) -> Option<Seq<u8>> {
        match keystore::b64_read(self.public_key@) {
            Some(k) => if k.len() == 32 {
                Some(k)
            } else {
                None
            },
            None => None,
        }
    }

    /// The same record in every field.
    pub open spec fn same(&self, other: &TrustedDevice) -> bool {
        &&& self.public_key@ == other.public_key@
        &&& self.name@ == other.name@
        &&& self.added_at_ms == other.added_at_ms
        &&& self.last_seen_ms == other.last_seen_ms
        &&& self.auto_accept_files == other.auto_accept_files
        &&& self.blocked == other.blocked
    }

    pub fn key_bytes(&self) -> (r: Option<Vec<u8>>)
        ensures
            match r {
                Some(k) => self.spec_key() == Some(k@),
                None => self.spec_key() is None,
            },
    {
        match keystore::read_b64(self.public_key.as_str()) {
            Some(k) => if k.len() == 32 {
                Some(k)
            } else {
                None
            },
            None => None,
        }
    }

    pub fn device_id(&self) -> (r: Option<DeviceId>)
        ensures
            match r {
                Some(id) => self.spec_key() matches Some(k) && id.0@ == fingerprint::device_bytes(k),
                None => self.spec_key() is None,
            },
    {
        match self.key_bytes() {
            Some(k) => Some(fingerprint::device_id(k.as_slice())),
            None => None,
        }
    }

    pub fn fingerprint(&self) -> (r: String)
        ensures
            r@ == match self.spec_key() {
                Some(k) => fingerprint::fingerprint_text(k),
                None => Seq::empty(),
            },
    {
        match self.key_bytes() {
            Some(k) => fingerprint::fingerprint(k.as_slice()),
            None => String::new(),
        }
    }

    /// A copy of the record.
    pub fn copy(&self) -> (r: TrustedDevice)
        ensures
            r == *self,
    {
        TrustedDevice {
            public_key: self.public_key.clone(),
            name: self.name.clone(),
            added_at_ms: self.added_at_ms,
            last_seen_ms: self.last_seen_ms,
            auto_accept_files: self.auto_accept_files,
            blocked: self.blocked,
        }
    }
}

/// How many leading records have a key before `key`.
pub open spec fn slot(ds: Seq<TrustedDevice>, key: Seq<char>) -> int
    decreases ds.len(),
{
    if ds.len() == 0 || text::str_lt(ds.last().public_key@, key) {
        ds.len() as int
    } else {
        slot(ds.drop_last(), key)
    }
}

/// Whether a record with this key exists.
pub open spec fn has(ds: Seq<TrustedDevice>, key: Seq<char>) -> bool {
    exists|i: int| 0 <= i < ds.len() && #[trigger] ds[i].public_key@ == key
}

/// The records with `d` added, in the place of one with the same key.
pub open spec fn put(ds: Seq<TrustedDevice>, d: TrustedDevice) -> Seq<TrustedDevice> {
    let at = slot(ds, d.public_key@);
    if has(ds, d.public_key@) {
        ds.update(at, d)
    } else {
        ds.insert(at, d)
    }
}

/// The well formed ones among some records, in order and each key once: of two
/// records with one key the later one stays.
pub open spec fn collected(ds: Seq<TrustedDevice>) -> Seq<TrustedDevice>
    decreases ds.len(),
{
    if ds.len() == 0 {
        Seq::empty()
    } else if ds.last().spec_key() is Some {
        put(collected(ds.drop_last()), ds.last())
    } else {
        collected(ds.drop_last())
    }
}

/// Records in the order of their keys, no key twice, every key well formed.
pub open spec fn in_order(ds: Seq<TrustedDevice>) -> bool {
    &&& forall|i: int, j: int|
        0 <= i < j < ds.len() ==> text::str_lt(
            #[trigger] ds[i].public_key@,
            #[trigger] ds[j].public_key@,
        )
    &&& forall|i: int| 0 <= i < ds.len() ==> (#[trigger] ds[i]).spec_key() is Some
}

/// The slot splits the records into those before a key and those not before it.
proof fn lemma_slot(ds: Seq<TrustedDevice>, key: Seq<char>)
    requires
        in_order(ds),
    ensures
        0 <= slot(ds, key) <= ds.len(),
        forall|i: int|
            0 <= i < slot(ds, key) ==> text::str_lt(#[trigger] ds[i].public_key@, key),
        forall|i: int|
            slot(ds, key) <= i < ds.len() ==> !text::str_lt(#[trigger] ds[i].public_key@, key),
    decreases ds.len(),
{
    if ds.len() > 0 {
        if text::str_lt(ds.last().public_key@, key) {
            assert forall|i: int| 0 <= i < ds.len() implies text::str_lt(
                #[trigger] ds[i].public_key@,
                key,
            ) by {
                if i < ds.len() - 1 {
                    text::lemma_str_lt_transitive(
                        ds[i].public_key@,
                        ds[ds.len() - 1].public_key@,
                        key,
                    );
                }
            }
        } else {
            let t = ds.drop_last();
            assert forall|i: int, j: int| 0 <= i < j < t.len() implies text::str_lt(
                #[trigger] t[i].public_key@,
                #[trigger] t[j].public_key@,
            ) by {
                assert(t[i] == ds[i] && t[j] == ds[j]);
            }
            assert forall|i: int| 0 <= i < t.len() implies (#[trigger] t[i]).spec_key()
                is Some by {
                assert(t[i] == ds[i]);
            }
            lemma_slot(t, key);
            let s = slot(ds, key);
            assert forall|i: int| 0 <= i < s implies text::str_lt(
                #[trigger] ds[i].public_key@,
                key,
            ) by {
                assert(t[i] == ds[i]);
            }
            assert forall|i: int| s <= i < ds.len() implies !text::str_lt(
                #[trigger] ds[i].public_key@,
                key,
            ) by {
                if i < t.len() {
                    assert(t[i] == ds[i]);
                }
            }
        }
    }
}

/// A key that occurs occurs at its slot and nowhere else.
proof fn lemma_slot_of_present(ds: Seq<TrustedDevice>, key: Seq<char>)
    requires
        in_order(ds),
        has(ds, key),
    ensures
        0 <= slot(ds, key) < ds.len(),
        ds[slot(ds, key)].public_key@ == key,
        forall|i: int|
            0 <= i < ds.len() && #[trigger] ds[i].public_key@ == key ==> i == slot(ds, key),
{
    lemma_slot(ds, key);
    text::lemma_str_lt_irreflexive(key);
    let i = choose|i: int| 0 <= i < ds.len() && #[trigger] ds[i].public_key@ == key;
    let s = slot(ds, key);
    if s < i {
        assert(text::str_lt(ds[s].public_key@, ds[i].public_key@));
    }
    assert(s == i);
    assert forall|j: int| 0 <= j < ds.len() && #[trigger] ds[j].public_key@ == key implies j
        == s by {
        if j < s {
            assert(text::str_lt(ds[j].public_key@, ds[s].public_key@));
        }
        if s < j {
            assert(text::str_lt(ds[s].public_key@, ds[j].public_key@));
        }
    }
}

/// Putting a well formed record keeps the order.
proof fn lemma_put(ds: Seq<TrustedDevice>, d: TrustedDevice)
    requires
        in_order(ds),
        d.spec_key() is Some,
    ensures
        in_order(put(ds, d)),
        has(put(ds, d), d.public_key@),
        put(ds, d)[slot(ds, d.public_key@)] == d,
        0 <= slot(ds, d.public_key@) < put(ds, d).len(),
        forall|k: Seq<char>|
            k != d.public_key@ ==> (#[trigger] has(put(ds, d), k) <==> has(ds, k)),
{
    let key = d.public_key@;
    lemma_slot(ds, key);
    let s = slot(ds, key);
    let r = put(ds, d);
    if has(ds, key) {
        lemma_slot_of_present(ds, key);
        assert forall|i: int, j: int| 0 <= i < j < r.len() implies text::str_lt(
            #[trigger] r[i].public_key@,
            #[trigger] r[j].public_key@,
        ) by {
            assert(r[i].public_key@ == ds[i].public_key@);
            assert(r[j].public_key@ == ds[j].public_key@);
        }
        assert forall|k: Seq<char>| k != key implies (#[trigger] has(r, k) <==> has(ds, k)) by {
            if has(r, k) {
                let i = choose|i: int| 0 <= i < r.len() && #[trigger] r[i].public_key@ == k;
                assert(ds[i].public_key@ == k);
            }
            if has(ds, k) {
                let i = choose|i: int| 0 <= i < ds.len() && #[trigger] ds[i].public_key@ == k;
                assert(r[i].public_key@ == k);
            }
        }
    } else {
        assert forall|i: int, j: int| 0 <= i < j < r.len() implies text::str_lt(
            #[trigger] r[i].public_key@,
            #[trigger] r[j].public_key@,
        ) by {
            let a = if i < s {
                i
            } else {
                i - 1
            };
            let b = if j < s {
                j
            } else {
                j - 1
            };
            if i == s {
                assert(r[j] == ds[b]);
                assert(ds[b].public_key@ != key);
                text::lemma_str_lt_total(ds[b].public_key@, key);
            } else if j == s {
                assert(r[i] == ds[a]);
            } else {
                assert(r[i] == ds[a] && r[j] == ds[b]);
            }
        }
        assert forall|i: int| 0 <= i < r.len() implies (#[trigger] r[i]).spec_key() is Some by {
            if i < s {
                assert(r[i] == ds[i]);
            } else if i > s {
                assert(r[i] == ds[i - 1]);
            }
        }
        assert forall|k: Seq<char>| k != key implies (#[trigger] has(r, k) <==> has(ds, k)) by {
            if has(r, k) {
                let i = choose|i: int| 0 <= i < r.len() && #[trigger] r[i].public_key@ == k;
                if i < s {
                    assert(ds[i].public_key@ == k);
                } else {
                    assert(r[i] == ds[i - 1]);
                    assert(ds[i - 1].public_key@ == k);
                }
            }
            if has(ds, k) {
                let i = choose|i: int| 0 <= i < ds.len() && #[trigger] ds[i].public_key@ == k;
                if i < s {
                    assert(r[i].public_key@ == k);
                } else {
                    assert(r[i + 1].public_key@ == k);
                }
            }
        }
    }
    assert(r[s] == d);
}

proof fn lemma_collected(ds: Seq<TrustedDevice>)
    ensures
        in_order(collected(ds)),
    decreases ds.len(),
{
    if ds.len() > 0 {
        lemma_collected(ds.drop_last());
        if ds.last().spec_key() is Some {
            lemma_put(collected(ds.drop_last()), ds.last());
        }
    }
}

/// Records that are in order already are collected as they are.
pub proof fn law_collected_keeps_order(ds: Seq<TrustedDevice>)
    requires
        in_order(ds),
    ensures
        collected(ds) == ds,
    decreases ds.len(),
{
    if ds.len() > 0 {
        let t = ds.drop_last();
        assert forall|i: int, j: int| 0 <= i < j < t.len() implies text::str_lt(
            #[trigger] t[i].public_key@,
            #[trigger] t[j].public_key@,
        ) by {
            assert(t[i] == ds[i] && t[j] == ds[j]);
        }
        assert forall|i: int| 0 <= i < t.len() implies (#[trigger] t[i]).spec_key() is Some by {
            assert(t[i] == ds[i]);
        }
        law_collected_keeps_order(t);
        let d = ds.last();
        assert(d == ds[ds.len() - 1]);
        if has(t, d.public_key@) {
            let i = choose|i: int| 0 <= i < t.len() && #[trigger] t[i].public_key@ == d.public_key@;
            assert(t[i] == ds[i]);
            text::lemma_str_lt_irreflexive(d.public_key@);
            assert(text::str_lt(ds[i].public_key@, ds[ds.len() - 1].public_key@));
        }
        if t.len() > 0 {
            assert(t.last() == ds[ds.len() - 2]);
            assert(text::str_lt(ds[ds.len() - 2].public_key@, ds[ds.len() - 1].public_key@));
        }
        assert(slot(t, d.public_key@) == t.len());
        assert(t.insert(t.len() as int, d) =~= ds);
    } else {
        assert(collected(ds) =~= ds);
    }
}

/// The record of a public key, if there is one.
pub open spec fn lookup(ds: Seq<TrustedDevice>, public_key: Seq<u8>) -> Option<TrustedDevice> {
    let key = codec::b64(false, public_key);
    if has(ds, key) {
        Some(ds[slot(ds, key)])
    } else {
        None
    }
}

/// Whether a public key belongs to a device that was paired and is not blocked.
pub open spec fn authorised(ds: Seq<TrustedDevice>, public_key: Seq<u8>) -> bool {
    lookup(ds, public_key) matches Some(d) && !d.blocked
}

/// The JSON text of one record.
pub open spec fn device_json(d: TrustedDevice) -> Seq<char> {
    "{\"public_key\":"@ + codec::json_string(d.public_key@) + ",\"name\":"@ + codec::json_string(
        d.name@,
    ) + ",\"added_at_ms\":"@ + text::decimal(d.added_at_ms as nat) + ",\"last_seen_ms\":"@
        + text::decimal(d.last_seen_ms as nat) + ",\"auto_accept_files\":"@ + bool_json(
        d.auto_accept_files,
    ) + ",\"blocked\":"@ + bool_json(d.blocked) + "}"@
}

pub open spec fn bool_json(b: bool) -> Seq<char> {
    if b {
        "true"@
    } else {
        "false"@
    }
}

/// The JSON texts of some records, with commas in between.
pub open spec fn devices_json(ds: Seq<TrustedDevice>) -> Seq<char>
    decreases ds.len(),
{
    if ds.len() == 0 {
        Seq::empty()
    } else if ds.len() == 1 {
        device_json(ds[0])
    } else {
        devices_json(ds.drop_last()) + ","@ + device_json(ds.last())
    }
}

/// The JSON text that is encrypted.
pub open spec fn contents_json(ds: Seq<TrustedDevice>) -> Seq<char> {
    "{\"devices\":["@ + devices_json(ds) + "]}"@
}

fn device_json_text(d: &TrustedDevice) -> (r: String)
    ensures
        r@ == device_json(*d),
{
    let mut r = "{\"public_key\":".to_string();
    r.append(codec::json_quote(d.public_key.as_str()).as_str());
    r.append(",\"name\":");
    r.append(codec::json_quote(d.name.as_str()).as_str());
    r.append(",\"added_at_ms\":");
    r.append(text::decimal_text(d.added_at_ms).as_str());
    r.append(",\"last_seen_ms\":");
    r.append(text::decimal_text(d.last_seen_ms).as_str());
    r.append(",\"auto_accept_files\":");
    if d.auto_accept_files {
        r.append("true");
    } else {
        r.append("false");
    }
    r.append(",\"blocked\":");
    if d.blocked {
        r.append("true");
    } else {
        r.append("false");
    }
    r.append("}");
    r
}

/// The key of a trust store: a subkey of the identity.
pub open spec fn store_key(private: Seq<u8>) -> Seq<u8> {
    crypto::blake2s(keystore::subkey_input(encode_utf8(SUBKEY_DOMAIN@), private))
}

/// The data that a trust store is bound to besides its key.
pub open spec fn store_aad(public: Seq<u8>) -> Seq<u8> {
    encode_utf8(AAD@) + public
}

/// What an envelope decrypts to under the keys of an identity, if it does.
pub open spec fn decrypted(e: Envelope, private: Seq<u8>, public: Seq<u8>) -> Option<Seq<u8>> {
    if e.version != FORMAT_VERSION {
        None
    } else {
        match (keystore::b64_read(e.nonce@), keystore::b64_read(e.ct@)) {
            (Some(nonce), Some(ct)) => if nonce.len() != 24 {
                None
            } else {
                crypto::xchacha_open(store_key(private), nonce, ct, store_aad(public))
            },
            _ => None,
        }
    }
}

/// The envelope of some contents under the keys of an identity and a nonce.
pub open spec fn sealed_in(
    e: Envelope,
    contents: Seq<u8>,
    private: Seq<u8>,
    public: Seq<u8>,
    nonce: Seq<u8>,
) -> bool {
    &&& nonce.len() == 24
    &&& e.version == FORMAT_VERSION
    &&& e.nonce@ == codec::b64(false, nonce)
    &&& crypto::xchacha_seal(store_key(private), nonce, contents, store_aad(public)) matches Some(
        ct,
    ) && e.ct@ == codec::b64(false, ct) && crypto::xchacha_open(
        store_key(private),
        nonce,
        ct,
        store_aad(public),
    ) == Some(contents)
}

/// An envelope decrypts, for the identity that sealed it, to what was sealed.
pub proof fn law_sealed_store_opens(
    e: Envelope,
    contents: Seq<u8>,
    private: Seq<u8>,
    public: Seq<u8>,
    nonce: Seq<u8>,
)
    requires
        sealed_in(e, contents, private, public, nonce),
    ensures
        decrypted(e, private, public) == Some(contents),
{
    keystore::lemma_b64_read(nonce);
    let ct = crypto::xchacha_seal(store_key(private), nonce, contents, store_aad(public))->0;
    keystore::lemma_b64_read(ct);
}

/// What was saved is loaded with the same records, every field of them: the
/// envelope opens, for the identity that it was sealed for, to the text of the
/// records, and a store with the records that this text was written for is the
/// one that was saved. That the text is read as those records is up to whoever
/// reads the JSON.
pub proof fn law_saved_store_is_loaded(
    saved: TrustStore,
    e: Envelope,
    private: Seq<u8>,
    public: Seq<u8>,
    nonce: Seq<u8>,
    read: Contents,
    loaded: TrustStore,
)
    requires
        in_order(saved.spec_devices()),
        sealed_in(
            e,
            encode_utf8(contents_json(saved.spec_devices())),
            private,
            public,
            nonce,
        ),
        read.devices@ == saved.spec_devices(),
        loaded.spec_devices() == collected(read.devices@),
    ensures
        decrypted(e, private, public) == Some(
            encode_utf8(contents_json(saved.spec_devices())),
        ),
        loaded.spec_devices() == saved.spec_devices(),
{
    let text = encode_utf8(contents_json(saved.spec_devices()));
    law_sealed_store_opens(e, text, private, public, nonce);
    law_collected_keeps_order(saved.spec_devices());
}

fn store_aad_bytes(identity: &Identity) -> (r: Vec<u8>)
    ensures
        r@ == store_aad(identity.spec_public()),
{
    let mut aad: Vec<u8> = Vec::new();
    bytes::append_slice(&mut aad, AAD.as_bytes());
    bytes::append_slice(&mut aad, identity.public_key());
    proof {
        assert(aad@ =~= store_aad(identity.spec_public()));
    }
    aad
}

impl TrustStore {
    #[verifier::type_invariant]
    spec fn keys_in_order(self) -> bool {
        in_order(self.devices@)
    }

    /// The records, in the order of their keys.
    pub closed spec fn spec_devices(&self) -> Seq<TrustedDevice> {
        self.devices@
    }

    /// The record of a public key, if there is one.
    pub open spec fn spec_get(&self, public_key: Seq<u8>) -> Option<TrustedDevice> {
        lookup(self.spec_devices(), public_key)
    }

    /// Whether a public key belongs to a device that was paired and is not
    /// blocked.
    pub open spec fn authorises(&self, public_key: Seq<u8>) -> bool {
        authorised(self.spec_devices(), public_key)
    }

    pub fn new() -> (r: Self)
        ensures
            r.spec_devices() == Seq::<TrustedDevice>::empty(),
    {
        TrustStore { devices: Vec::new() }
    }

    /// Decrypts the store, or returns nothing if the file does not exist.
    ///
    /// A file that exists but fails authentication is an error, never an empty
    /// store: silently starting fresh would let an attacker clear the trust
    /// list by corrupting the file. The caller reads the JSON that comes out
    /// and hands it to [`TrustStore::from_contents`].
    pub fn load(file: Stored<Envelope>, identity: &Identity) -> (r: Result<
        Option<Vec<u8>>,
        TrustError,
    >)
        ensures
            match file {
                Stored::NotFound => r matches Ok(None),
                Stored::Failed(why) => r matches Err(e) && e == TrustError::Io(why),
                Stored::Malformed => r matches Err(e) && e == TrustError::Tampered,
                Stored::Parsed(env) => match decrypted(
                    env,
                    identity.spec_private(),
                    identity.spec_public(),
                ) {
                    Some(plain) => r matches Ok(Some(p)) && p@ == plain,
                    None => r matches Err(e) && e == TrustError::Tampered,
                },
            },
    {
        let env = match file {
            Stored::NotFound => return Ok(None),
            Stored::Failed(why) => return Err(TrustError::Io(why)),
            Stored::Malformed => return Err(TrustError::Tampered),
            Stored::Parsed(e) => e,
        };
        if env.version != FORMAT_VERSION {
            return Err(TrustError::Tampered);
        }
        let nonce = match keystore::read_b64(env.nonce.as_str()) {
            Some(v) => v,
            None => return Err(TrustError::Tampered),
        };
        let ct = match keystore::read_b64(env.ct.as_str()) {
            Some(v) => v,
            None => return Err(TrustError::Tampered),
        };
        if nonce.len() != 24 {
            return Err(TrustError::Tampered);
        }
        let key = identity.derive_subkey(SUBKEY_DOMAIN.as_bytes());
        let aad = store_aad_bytes(identity);
        match crypto::open(key.expose(), nonce.as_slice(), ct.as_slice(), aad.as_slice()) {
            Some(plain) => Ok(Some(plain)),
            None => Err(TrustError::Tampered),
        }
    }

    /// The store with the given contents; `None` stands for decrypted contents
    /// that are not the JSON they should be.
    pub fn from_contents(contents: Option<Contents>) -> (r: Result<Self, TrustError>)
        ensures
            match contents {
                Some(c) => r matches Ok(store) && store.spec_devices() == collected(c.devices@),
                None => r matches Err(e) && e == TrustError::Tampered,
            },
    {
        let devices = match contents {
            Some(c) => c.devices,
            None => return Err(TrustError::Tampered),
        };
        let mut store = TrustStore::new();
        let mut i: usize = 0;
        while i < devices.len()
            invariant
                i <= devices@.len(),
                store.spec_devices() == collected(devices@.take(i as int)),
            decreases devices.len() - i,
        {
            proof {
                assert(devices@.take(i + 1).drop_last() =~= devices@.take(i as int));
            }
            // Drop anything that is not a well formed key rather than keeping a
            // half-valid entry around.
            if devices[i].key_bytes().is_some() {
                store.insert(devices[i].copy());
            }
            i = i + 1;
        }
        proof {
            assert(devices@.take(devices@.len() as int) =~= devices@);
        }
        Ok(store)
    }

    /// The index of a record, or of the place where it would stand.
    fn find(&self, key: &str) -> (r: (usize, bool))
        ensures
            r.0 == slot(self.spec_devices(), key@),
            r.0 <= self.spec_devices().len(),
            r.1 == has(self.spec_devices(), key@),
            r.1 ==> r.0 < self.spec_devices().len() && self.spec_devices()[r.0 as int].public_key@
                == key@,
    {
        proof {
            use_type_invariant(self);
            lemma_slot(self.devices@, key@);
        }
        let mut i: usize = self.devices.len();
        proof {
            assert(self.devices@.take(i as int) =~= self.devices@);
        }
        while i > 0 && !text::str_less(self.devices[i - 1].public_key.as_str(), key)
            invariant
                i <= self.devices@.len(),
                slot(self.devices@, key@) == slot(self.devices@.take(i as int), key@),
            decreases i,
        {
            proof {
                assert(self.devices@.take(i as int).drop_last() =~= self.devices@.take(i - 1));
            }
            i = i - 1;
        }
        proof {
            if i > 0 {
                assert(self.devices@.take(i as int).last() == self.devices@[i - 1]);
            }
            assert(slot(self.devices@, key@) == i);
        }
        let found = i < self.devices.len() && text::str_eq(
            self.devices[i].public_key.as_str(),
            key,
        );
        proof {
            if has(self.devices@, key@) {
                lemma_slot_of_present(self.devices@, key@);
            }
            if found {
                assert(self.devices@[i as int].public_key@ == key@);
            }
        }
        (i, found)
    }

    /// Adds a well formed record, in the place of one with the same key.
    fn insert(&mut self, d: TrustedDevice)
        requires
            d.spec_key() is Some,
        ensures
            final(self).spec_devices() == put(old(self).spec_devices(), d),
    {
        let (at, found) = self.find(d.public_key.as_str());
        proof {
            use_type_invariant(&*self);
            lemma_put(self.devices@, d);
        }
        let mut devices: Vec<TrustedDevice> = Vec::new();
        std::mem::swap(&mut devices, &mut self.devices);
        if found {
            devices.set(at, d);
        } else {
            devices.insert(at, d);
        }
        self.devices = devices;
    }

    /// The JSON text of the contents.
    pub fn contents_text(&self) -> (r: String)
        ensures
            r@ == contents_json(self.spec_devices()),
    {
        let mut r = "{\"devices\":[".to_string();
        let ghost head = r@;
        let mut i: usize = 0;
        proof {
            assert(head + devices_json(self.devices@.take(0)) =~= head);
        }
        while i < self.devices.len()
            invariant
                i <= self.devices@.len(),
                r@ == head + devices_json(self.devices@.take(i as int)),
            decreases self.devices.len() - i,
        {
            proof {
                let t = self.devices@.take(i + 1);
                assert(t.drop_last() =~= self.devices@.take(i as int));
                assert(t.last() == self.devices@[i as int]);
                if i > 0 {
                    assert(head + devices_json(t) =~= head + devices_json(
                        self.devices@.take(i as int),
                    ) + ","@ + device_json(self.devices@[i as int]));
                } else {
                    assert(t[0] == self.devices@[0]);
                    assert(head + devices_json(t) =~= head + devices_json(
                        self.devices@.take(i as int),
                    ) + device_json(self.devices@[i as int]));
                }
            }
            if i > 0 {
                r.append(",");
            }
            r.append(device_json_text(&self.devices[i]).as_str());
            i = i + 1;
        }
        r.append("]}");
        proof {
            assert(self.devices@.take(self.devices@.len() as int) =~= self.devices@);
        }
        r
    }

    /// Whether the contents can be sealed: they need room in memory.
    pub open spec fn sealable(&self) -> bool {
        text::utf8_len(contents_json(self.spec_devices())) + 16 <= usize::MAX / 4
            && text::utf8_len(contents_json(self.spec_devices())) / 64 < u32::MAX
    }

    /// See [`TrustStore::sealable`].
    pub fn can_save(&self) -> (r: bool)
        ensures
            r == self.sealable(),
    {
        let json = self.contents_text();
        let n: usize = json.as_str().as_bytes().len();
        n <= usize::MAX / 4 - 16 && n / 64 < u32::MAX as usize
    }

    /// The file contents of the store: encrypted and authenticated for an
    /// identity, under the given nonce.
    pub fn save_with(&self, identity: &Identity, nonce: &[u8]) -> (r: Result<Envelope, TrustError>)
        requires
            nonce@.len() == 24,
            self.sealable(),
        ensures
            in_order(self.spec_devices()),
            r matches Ok(e) && sealed_in(
                e,
                encode_utf8(contents_json(self.spec_devices())),
                identity.spec_private(),
                identity.spec_public(),
                nonce@,
            ),
    {
        proof {
            use_type_invariant(self);
        }
        let json = self.contents_text();
        let key = identity.derive_subkey(SUBKEY_DOMAIN.as_bytes());
        let aad = store_aad_bytes(identity);
        match crypto::seal(key.expose(), nonce, json.as_str().as_bytes(), aad.as_slice()) {
            Some(ct) => Ok(
                Envelope {
                    version: FORMAT_VERSION,
                    nonce: codec::b64_encode(nonce),
                    ct: codec::b64_encode(ct.as_slice()),
                },
            ),
            None => Err(TrustError::Tampered),
        }
    }

    /// The file contents of the store: encrypted and authenticated for an
    /// identity, under a fresh nonce.
    pub fn save(&self, identity: &Identity) -> (r: Result<Envelope, TrustError>)
        requires
            self.sealable(),
        ensures
            in_order(self.spec_devices()),
            r matches Ok(e) && exists|nonce: Seq<u8>| #[trigger]
                sealed_in(
                    e,
                    encode_utf8(contents_json(self.spec_devices())),
                    identity.spec_private(),
                    identity.spec_public(),
                    nonce,
                ),
    {
        let nonce = crypto::random_bytes(24);
        self.save_with(identity, nonce.as_slice())
    }

    /// Look up a device by raw public key.
    pub fn get(&self, public_key: &[u8]) -> (r: Option<&TrustedDevice>)
        requires
            public_key@.len() <= usize::MAX / 4,
        ensures
            match r {
                Some(d) => self.spec_get(public_key@) == Some(*d),
                None => self.spec_get(public_key@) is None,
            },
    {
        let key = codec::b64_encode(public_key);
        let (at, found) = self.find(key.as_str());
        if !found {
            return None;
        }
        let d = &self.devices[at];
        // Belt and braces: verify the stored bytes really match, in constant
        // time, before this entry authorises anything.
        proof {
            use_type_invariant(self);
            assert(self.devices@[at as int].spec_key() is Some);
            keystore::lemma_b64_read(public_key@);
        }
        match d.key_bytes() {
            Some(stored) => if fingerprint::keys_equal(stored.as_slice(), public_key) {
                Some(d)
            } else {
                None
            },
            None => None,
        }
    }

    /// True only for a device that was paired and is not blocked.
    pub fn is_authorised(&self, public_key: &[u8]) -> (r: bool)
        requires
            public_key@.len() <= usize::MAX / 4,
        ensures
            r == self.authorises(public_key@),
    {
        match self.get(public_key) {
            Some(d) => !d.blocked,
            None => false,
        }
    }

    /// The index of the first record of a device.
    pub open spec fn first_of(&self, id: DeviceId, i: int) -> bool {
        let ds = self.spec_devices();
        &&& 0 <= i < ds.len()
        &&& ds[i].spec_key() matches Some(k) && fingerprint::device_bytes(k) == id.0@
        &&& forall|j: int|
            0 <= j < i ==> !((#[trigger] ds[j]).spec_key() matches Some(k)
                && fingerprint::device_bytes(k) == id.0@)
    }

    /// No record is one of a device.
    pub open spec fn lacks(&self, id: DeviceId) -> bool {
        forall|i: int| !#[trigger] self.first_of(id, i)
    }

    pub fn by_device_id(&self, id: DeviceId) -> (r: Option<&TrustedDevice>)
        ensures
            match r {
                Some(d) => exists|i: int| #[trigger]
                    self.first_of(id, i) && *d == self.spec_devices()[i],
                None => forall|j: int|
                    0 <= j < self.spec_devices().len() ==> !((
                    #[trigger] self.spec_devices()[j]).spec_key() matches Some(k)
                        && fingerprint::device_bytes(k) == id.0@),
            },
            r is None ==> self.lacks(id),
    {
        let mut i: usize = 0;
        while i < self.devices.len()
            invariant
                i <= self.devices@.len(),
                forall|j: int|
                    0 <= j < i ==> !((#[trigger] self.devices@[j]).spec_key() matches Some(k)
                        && fingerprint::device_bytes(k) == id.0@),
            decreases self.devices.len() - i,
        {
            if let Some(found) = self.devices[i].device_id() {
                if bytes::bytes_equal(found.0.as_slice(), id.0.as_slice()) {
                    proof {
                        assert(self.first_of(id, i as int));
                    }
                    return Some(&self.devices[i]);
                }
            }
            i = i + 1;
        }
        None
    }

    /// Record a new pairing, or refresh the name of an existing one, at a given
    /// time.
    pub fn add_at(&mut self, public_key: &[u8], name: &str, now: u64) -> (r: Result<(), TrustError>)
        ensures
            added(
                old(self).spec_devices(),
                final(self).spec_devices(),
                public_key@,
                name@,
                now,
                r,
            ),
    {
        if public_key.len() != 32 {
            return Err(TrustError::BadKey);
        }
        let key = codec::b64_encode(public_key);
        let (at, found) = self.find(key.as_str());
        proof {
            keystore::lemma_b64_read(public_key@);
            use_type_invariant(&*self);
        }
        if found {
            let mut d = self.devices[at].copy();
            d.name = util::clamp_str(name, 64);
            d.last_seen_ms = now;
            d.blocked = false;
            self.insert(d);
            return Ok(());
        }
        if self.devices.len() >= MAX_TRUSTED_DEVICES {
            return Err(TrustError::Full);
        }
        let d = TrustedDevice {
            public_key: key,
            name: util::clamp_str(name, 64),
            added_at_ms: now,
            last_seen_ms: now,
            auto_accept_files: false,
            blocked: false,
        };
        proof {
            lemma_put(self.devices@, d);
        }
        self.insert(d);
        Ok(())
    }

    /// Record a new pairing, or refresh the name of an existing one.
    pub fn add(&mut self, public_key: &[u8], name: &str) -> (r: Result<(), TrustError>)
        ensures
            exists|now: u64| #[trigger]
                added(
                    old(self).spec_devices(),
                    final(self).spec_devices(),
                    public_key@,
                    name@,
                    now,
                    r,
                ),
    {
        let now: u64 = now_ms();
        self.add_at(public_key, name, now)
    }

    pub fn remove(&mut self, public_key: &[u8]) -> (r: bool)
        requires
            public_key@.len() <= usize::MAX / 4,
        ensures
            removed(old(self).spec_devices(), final(self).spec_devices(), public_key@, r),
    {
        let key = codec::b64_encode(public_key);
        let (at, found) = self.find(key.as_str());
        if found {
            proof {
                use_type_invariant(&*self);
                lemma_remove(self.devices@, at as int);
            }
            let mut devices: Vec<TrustedDevice> = Vec::new();
            std::mem::swap(&mut devices, &mut self.devices);
            let _ = devices.remove(at);
            self.devices = devices;
        }
        found
    }

    /// Replaces one record by another with the same key.
    fn replace(&mut self, at: usize, d: TrustedDevice)
        requires
            at < old(self).spec_devices().len(),
            d.public_key@ == old(self).spec_devices()[at as int].public_key@,
        ensures
            final(self).spec_devices() == old(self).spec_devices().update(at as int, d),
    {
        proof {
            use_type_invariant(&*self);
            let ds = self.devices@;
            let r = ds.update(at as int, d);
            assert(ds[at as int].spec_key() is Some);
            assert forall|i: int, j: int| 0 <= i < j < r.len() implies text::str_lt(
                #[trigger] r[i].public_key@,
                #[trigger] r[j].public_key@,
            ) by {
                assert(r[i].public_key@ == ds[i].public_key@);
                assert(r[j].public_key@ == ds[j].public_key@);
            }
            assert(in_order(r));
        }
        let mut devices: Vec<TrustedDevice> = Vec::new();
        std::mem::swap(&mut devices, &mut self.devices);
        devices.set(at, d);
        self.devices = devices;
    }

    pub fn set_auto_accept(&mut self, public_key: &[u8], on: bool)
        requires
            public_key@.len() <= usize::MAX / 4,
        ensures
            changed(
                old(self).spec_devices(),
                final(self).spec_devices(),
                public_key@,
                |a: TrustedDevice, b: TrustedDevice|
                    b == TrustedDevice { auto_accept_files: on, ..a },
            ),
    {
        let key = codec::b64_encode(public_key);
        let (at, found) = self.find(key.as_str());
        if found {
            let mut d = self.devices[at].copy();
            d.auto_accept_files = on;
            self.replace(at, d);
        }
    }

    pub fn set_blocked(&mut self, public_key: &[u8], blocked: bool)
        requires
            public_key@.len() <= usize::MAX / 4,
        ensures
            changed(
                old(self).spec_devices(),
                final(self).spec_devices(),
                public_key@,
                |a: TrustedDevice, b: TrustedDevice| b == TrustedDevice { blocked, ..a },
            ),
    {
        let key = codec::b64_encode(public_key);
        let (at, found) = self.find(key.as_str());
        if found {
            let mut d = self.devices[at].copy();
            d.blocked = blocked;
            self.replace(at, d);
        }
    }

    /// Note that a device was seen at a given time, under a name that replaces
    /// the recorded one unless it is empty.
    pub fn touch_at(&mut self, public_key: &[u8], name: &str, now: u64)
        requires
            public_key@.len() <= usize::MAX / 4,
        ensures
            changed(
                old(self).spec_devices(),
                final(self).spec_devices(),
                public_key@,
                |a: TrustedDevice, b: TrustedDevice| touched(a, b, name@, now),
            ),
    {
        let key = codec::b64_encode(public_key);
        let (at, found) = self.find(key.as_str());
        if found {
            let mut d = self.devices[at].copy();
            d.last_seen_ms = now;
            if !name.is_empty() {
                d.name = util::clamp_str(name, 64);
            }
            self.replace(at, d);
        }
    }

    /// Note that a device was seen now; see [`TrustStore::touch_at`].
    pub fn touch(&mut self, public_key: &[u8], name: &str)
        requires
            public_key@.len() <= usize::MAX / 4,
        ensures
            exists|now: u64|
                changed(
                    old(self).spec_devices(),
                    final(self).spec_devices(),
                    public_key@,
                    #[trigger] touched_at(name@, now),
                ),
    {
        let now: u64 = now_ms();
        self.touch_at(public_key, name, now);
        proof {
            assert(touched_at(name@, now) =~= (|a: TrustedDevice, b: TrustedDevice|
                touched(a, b, name@, now)));
        }
    }

    /// All records: in the order of their keys, no key twice, every key well
    /// formed.
    pub fn list(&self) -> (r: Vec<TrustedDevice>)
        ensures
            r@ == self.spec_devices(),
            in_order(r@),
    {
        proof {
            use_type_invariant(self);
        }
        let mut r: Vec<TrustedDevice> = Vec::new();
        let mut i: usize = 0;
        while i < self.devices.len()
            invariant
                i <= self.devices@.len(),
                r@ == self.devices@.take(i as int),
            decreases self.devices.len() - i,
        {
            r.push(self.devices[i].copy());
            proof {
                assert(self.devices@.take(i + 1) =~= self.devices@.take(i as int).push(
                    self.devices@[i as int],
                ));
            }
            i = i + 1;
        }
        proof {
            assert(self.devices@.take(self.devices@.len() as int) =~= self.devices@);
        }
        r
    }

    pub fn len(&self) -> (r: usize)
        ensures
            r == self.spec_devices().len(),
    {
        self.devices.len()
    }

    pub fn is_empty(&self) -> (r: bool)
        ensures
            r == (self.spec_devices().len() == 0),
    {
        self.devices.len() == 0
    }
}

/// How a record changes when its device is seen.
pub open spec fn touched(a: TrustedDevice, b: TrustedDevice, name: Seq<char>, now: u64) -> bool {
    &&& b == TrustedDevice { last_seen_ms: now, name: b.name, ..a }
    &&& if name.len() > 0 {
        b.name@ == util::clamped(name, 64)
    } else {
        b.name == a.name
    }
}

pub open spec fn touched_at(name: Seq<char>, now: u64) -> spec_fn(
    TrustedDevice,
    TrustedDevice,
) -> bool {
    |a: TrustedDevice, b: TrustedDevice| touched(a, b, name, now)
}

/// The records after the one of a public key changed by `step`; all other
/// records stay, and nothing happens without one.
pub open spec fn changed(
    pre: Seq<TrustedDevice>,
    post: Seq<TrustedDevice>,
    public_key: Seq<u8>,
    step: spec_fn(TrustedDevice, TrustedDevice) -> bool,
) -> bool {
    let key = codec::b64(false, public_key);
    let at = slot(pre, key);
    if has(pre, key) {
        &&& post == pre.update(at, post[at])
        &&& step(pre[at], post[at])
    } else {
        post == pre
    }
}

/// The records after a pairing, and what the call returned.
pub open spec fn added(
    pre: Seq<TrustedDevice>,
    post: Seq<TrustedDevice>,
    public_key: Seq<u8>,
    name: Seq<char>,
    now: u64,
    r: Result<(), TrustError>,
) -> bool {
    let key = codec::b64(false, public_key);
    let at = slot(pre, key);
    if public_key.len() != 32 {
        r == Err::<(), _>(TrustError::BadKey) && post == pre
    } else if has(pre, key) {
        &&& r == Ok::<_, TrustError>(())
        &&& post == pre.update(at, post[at])
        &&& post[at].name@ == util::clamped(name, 64)
        &&& post[at] == TrustedDevice {
            name: post[at].name,
            last_seen_ms: now,
            blocked: false,
            public_key: post[at].public_key,
            ..pre[at]
        }
        &&& post[at].public_key@ == key
    } else if pre.len() >= MAX_TRUSTED_DEVICES {
        r == Err::<(), _>(TrustError::Full) && post == pre
    } else {
        &&& r == Ok::<_, TrustError>(())
        &&& post == pre.insert(at, post[at])
        &&& post[at].public_key@ == key
        &&& post[at].name@ == util::clamped(name, 64)
        &&& post[at].added_at_ms == now
        &&& post[at].last_seen_ms == now
        &&& !post[at].auto_accept_files
        &&& !post[at].blocked
    }
}

/// The records after the one of a public key was removed, and whether there was
/// one.
pub open spec fn removed(
    pre: Seq<TrustedDevice>,
    post: Seq<TrustedDevice>,
    public_key: Seq<u8>,
    r: bool,
) -> bool {
    let key = codec::b64(false, public_key);
    &&& r == has(pre, key)
    &&& post == if r {
        pre.remove(slot(pre, key))
    } else {
        pre
    }
}

proof fn lemma_remove(ds: Seq<TrustedDevice>, at: int)
    requires
        in_order(ds),
        0 <= at < ds.len(),
    ensures
        in_order(ds.remove(at)),
{
    let r = ds.remove(at);
    assert forall|i: int, j: int| 0 <= i < j < r.len() implies text::str_lt(
        #[trigger] r[i].public_key@,
        #[trigger] r[j].public_key@,
    ) by {
        let a = if i < at {
            i
        } else {
            i + 1
        };
        let b = if j < at {
            j
        } else {
            j + 1
        };
        assert(r[i] == ds[a] && r[j] == ds[b]);
    }
    assert forall|i: int| 0 <= i < r.len() implies (#[trigger] r[i]).spec_key() is Some by {
        let a = if i < at {
            i
        } else {
            i + 1
        };
        assert(r[i] == ds[a]);
    }
}

/// In order, a record is found where it stands.
proof fn lemma_found(ds: Seq<TrustedDevice>, i: int, public_key: Seq<u8>)
    requires
        in_order(ds),
        0 <= i < ds.len(),
        ds[i].public_key@ == codec::b64(false, public_key),
    ensures
        lookup(ds, public_key) == Some(ds[i]),
{
    lemma_slot_of_present(ds, codec::b64(false, public_key));
}

/// Two lists that agree on the records of a key find the same record.
proof fn lemma_same_record(a: Seq<TrustedDevice>, b: Seq<TrustedDevice>, public_key: Seq<u8>)
    requires
        in_order(a),
        in_order(b),
        forall|i: int|
            0 <= i < a.len() && #[trigger] a[i].public_key@ == codec::b64(false, public_key)
                ==> b.contains(a[i]),
        forall|i: int|
            0 <= i < b.len() && #[trigger] b[i].public_key@ == codec::b64(false, public_key)
                ==> a.contains(b[i]),
    ensures
        lookup(a, public_key) == lookup(b, public_key),
{
    let key = codec::b64(false, public_key);
    if has(a, key) {
        lemma_slot_of_present(a, key);
        let d = a[slot(a, key)];
        let j = choose|j: int| 0 <= j < b.len() && b[j] == d;
        lemma_found(b, j, public_key);
    } else if has(b, key) {
        lemma_slot_of_present(b, key);
        let d = b[slot(b, key)];
        let j = choose|j: int| 0 <= j < a.len() && a[j] == d;
        assert(a[j].public_key@ == key);
    }
}

/// Nobody is authorised before the first pairing.
pub proof fn law_empty_store_authorises_nobody(public_key: Seq<u8>)
    ensures
        !authorised(Seq::<TrustedDevice>::empty(), public_key),
{
}

/// A device that was paired is authorised, whatever it was before.
pub proof fn law_paired_device_is_authorised(
    pre: Seq<TrustedDevice>,
    post: Seq<TrustedDevice>,
    public_key: Seq<u8>,
    name: Seq<char>,
    now: u64,
)
    requires
        in_order(pre),
        added(pre, post, public_key, name, now, Ok(())),
    ensures
        in_order(post),
        authorised(post, public_key),
        lookup(post, public_key) matches Some(d) && d.name@ == util::clamped(name, 64)
            && d.last_seen_ms == now,
{
    lemma_added(pre, post, public_key, name, now, Ok(()));
    let at = slot(pre, codec::b64(false, public_key));
    lemma_slot(pre, codec::b64(false, public_key));
    if has(pre, codec::b64(false, public_key)) {
        lemma_slot_of_present(pre, codec::b64(false, public_key));
    }
    lemma_found(post, at, public_key);
}

proof fn lemma_added(
    pre: Seq<TrustedDevice>,
    post: Seq<TrustedDevice>,
    public_key: Seq<u8>,
    name: Seq<char>,
    now: u64,
    r: Result<(), TrustError>,
)
    requires
        in_order(pre),
        added(pre, post, public_key, name, now, r),
    ensures
        in_order(post),
{
    let key = codec::b64(false, public_key);
    keystore::lemma_b64_read(public_key);
    lemma_slot(pre, key);
    if r is Ok {
        lemma_put(pre, post[slot(pre, key)]);
    }
}

/// The files of a device that was paired for the first time are asked for.
pub proof fn law_new_device_is_asked(
    pre: Seq<TrustedDevice>,
    post: Seq<TrustedDevice>,
    public_key: Seq<u8>,
    name: Seq<char>,
    now: u64,
)
    requires
        in_order(pre),
        lookup(pre, public_key) is None,
        added(pre, post, public_key, name, now, Ok(())),
    ensures
        lookup(post, public_key) matches Some(d) && !d.auto_accept_files && !d.blocked,
{
    let key = codec::b64(false, public_key);
    let at = slot(pre, key);
    lemma_added(pre, post, public_key, name, now, Ok(()));
    lemma_slot(pre, key);
    lemma_found(post, at, public_key);
}

/// Pairing one device changes nothing for another, and pairing that is refused
/// changes nothing at all.
pub proof fn law_pairing_leaves_others(
    pre: Seq<TrustedDevice>,
    post: Seq<TrustedDevice>,
    public_key: Seq<u8>,
    name: Seq<char>,
    now: u64,
    r: Result<(), TrustError>,
    other: Seq<u8>,
)
    requires
        in_order(pre),
        added(pre, post, public_key, name, now, r),
        other != public_key,
    ensures
        lookup(post, other) == lookup(pre, other),
        r is Err ==> post == pre,
{
    lemma_added(pre, post, public_key, name, now, r);
    let key = codec::b64(false, public_key);
    let at = slot(pre, key);
    lemma_slot(pre, key);
    if codec::b64(false, other) == key {
        codec::lemma_b64_injective(false, other, public_key);
    }
    if has(pre, key) {
        lemma_slot_of_present(pre, key);
    }
    if r is Ok {
        assert forall|i: int|
            0 <= i < pre.len() && #[trigger] pre[i].public_key@ == codec::b64(
                false,
                other,
            ) implies post.contains(pre[i]) by {
            if has(pre, key) || i < at {
                assert(post[i] == pre[i]);
            } else {
                assert(post[i + 1] == pre[i]);
            }
        }
        assert forall|i: int|
            0 <= i < post.len() && #[trigger] post[i].public_key@ == codec::b64(
                false,
                other,
            ) implies pre.contains(post[i]) by {
            if has(pre, key) || i < at {
                assert(post[i] == pre[i]);
            } else {
                assert(post[i] == pre[i - 1]);
            }
        }
        lemma_same_record(pre, post, other);
    }
}

/// A store that was within its capacity stays within it.
pub proof fn law_capacity_is_kept(
    pre: Seq<TrustedDevice>,
    post: Seq<TrustedDevice>,
    public_key: Seq<u8>,
    name: Seq<char>,
    now: u64,
    r: Result<(), TrustError>,
)
    requires
        in_order(pre),
        pre.len() <= MAX_TRUSTED_DEVICES,
        added(pre, post, public_key, name, now, r),
    ensures
        post.len() <= MAX_TRUSTED_DEVICES,
{
    lemma_slot(pre, codec::b64(false, public_key));
    if has(pre, codec::b64(false, public_key)) {
        lemma_slot_of_present(pre, codec::b64(false, public_key));
    }
}

/// A removed device is not authorised any more.
pub proof fn law_removed_device_is_not_authorised(
    pre: Seq<TrustedDevice>,
    post: Seq<TrustedDevice>,
    public_key: Seq<u8>,
    r: bool,
)
    requires
        in_order(pre),
        removed(pre, post, public_key, r),
    ensures
        in_order(post),
        lookup(post, public_key) is None,
{
    let key = codec::b64(false, public_key);
    if r {
        lemma_slot_of_present(pre, key);
        let at = slot(pre, key);
        lemma_remove(pre, at);
        if has(post, key) {
            let i = choose|i: int| 0 <= i < post.len() && #[trigger] post[i].public_key@ == key;
            if i < at {
                assert(pre[i].public_key@ == key);
            } else {
                assert(post[i] == pre[i + 1]);
                assert(pre[i + 1].public_key@ == key);
            }
        }
    }
}

/// Taking out one record leaves those with another key.
proof fn lemma_remove_keeps(
    pre: Seq<TrustedDevice>,
    post: Seq<TrustedDevice>,
    at: int,
    kept: Seq<char>,
)
    requires
        0 <= at < pre.len(),
        post == pre.remove(at),
        pre[at].public_key@ != kept,
    ensures
        forall|i: int|
            0 <= i < pre.len() && #[trigger] pre[i].public_key@ == kept ==> post.contains(pre[i]),
        forall|i: int|
            0 <= i < post.len() && #[trigger] post[i].public_key@ == kept ==> pre.contains(
                post[i],
            ),
{
    assert forall|i: int|
        0 <= i < pre.len() && #[trigger] pre[i].public_key@ == kept implies post.contains(
        pre[i],
    ) by {
        if i < at {
            assert(post[i] == pre[i]);
        } else {
            assert(post[i - 1] == pre[i]);
        }
    }
    assert forall|i: int|
        0 <= i < post.len() && #[trigger] post[i].public_key@ == kept implies pre.contains(
        post[i],
    ) by {
        if i < at {
            assert(post[i] == pre[i]);
        } else {
            assert(post[i] == pre[i + 1]);
        }
    }
}

/// Removing one device changes nothing for another.
pub proof fn law_removal_leaves_others(
    pre: Seq<TrustedDevice>,
    post: Seq<TrustedDevice>,
    public_key: Seq<u8>,
    r: bool,
    other: Seq<u8>,
)
    requires
        in_order(pre),
        removed(pre, post, public_key, r),
        other != public_key,
    ensures
        lookup(post, other) == lookup(pre, other),
{
    let key = codec::b64(false, public_key);
    let kept = codec::b64(false, other);
    if r {
        lemma_slot_of_present(pre, key);
        let at = slot(pre, key);
        lemma_remove(pre, at);
        assert(kept != key) by {
            if kept == key {
                codec::lemma_b64_injective(false, other, public_key);
            }
        }
        lemma_remove_keeps(pre, post, at, kept);
        lemma_same_record(pre, post, other);
    }
}

/// A blocked device is not authorised, though its record stays; the others stay
/// as they were.
pub proof fn law_blocked_device_is_not_authorised(
    pre: Seq<TrustedDevice>,
    post: Seq<TrustedDevice>,
    public_key: Seq<u8>,
    other: Seq<u8>,
)
    requires
        in_order(pre),
        changed(
            pre,
            post,
            public_key,
            |a: TrustedDevice, b: TrustedDevice| b == (TrustedDevice { blocked: true, ..a }),
        ),
        other != public_key,
    ensures
        in_order(post),
        !authorised(post, public_key),
        lookup(post, public_key) is Some <==> lookup(pre, public_key) is Some,
        lookup(post, other) == lookup(pre, other),
{
    let key = codec::b64(false, public_key);
    if has(pre, key) {
        lemma_slot_of_present(pre, key);
        let at = slot(pre, key);
        lemma_put(pre, post[at]);
        assert(post == put(pre, post[at]));
        lemma_found(post, at, public_key);
        if codec::b64(false, other) == key {
            codec::lemma_b64_injective(false, other, public_key);
        }
        assert forall|i: int|
            0 <= i < pre.len() && #[trigger] pre[i].public_key@ == codec::b64(
                false,
                other,
            ) implies post.contains(pre[i]) by {
            assert(post[i] == pre[i]);
        }
        assert forall|i: int|
            0 <= i < post.len() && #[trigger] post[i].public_key@ == codec::b64(
                false,
                other,
            ) implies pre.contains(post[i]) by {
            assert(post[i] == pre[i]);
        }
        lemma_same_record(pre, post, other);
    }
}

/// A change of one record that keeps its key reaches the record of that key and
/// no other.
pub proof fn lemma_changed(
    pre: Seq<TrustedDevice>,
    post: Seq<TrustedDevice>,
    public_key: Seq<u8>,
    step: spec_fn(TrustedDevice, TrustedDevice) -> bool,
    other: Seq<u8>,
)
    requires
        in_order(pre),
        changed(pre, post, public_key, step),
        forall|a: TrustedDevice, b: TrustedDevice| #[trigger]
            step(a, b) ==> a.public_key@ == b.public_key@,
        other != public_key,
    ensures
        in_order(post),
        post.len() == pre.len(),
        lookup(post, other) == lookup(pre, other),
        match lookup(pre, public_key) {
            Some(a) => lookup(post, public_key) matches Some(b) && step(a, b),
            None => post == pre,
        },
{
    let key = codec::b64(false, public_key);
    if has(pre, key) {
        lemma_slot_of_present(pre, key);
        let at = slot(pre, key);
        assert(step(pre[at], post[at]));
        assert(pre[at].spec_key() is Some);
        lemma_put(pre, post[at]);
        assert(post == put(pre, post[at]));
        lemma_found(post, at, public_key);
        if codec::b64(false, other) == key {
            codec::lemma_b64_injective(false, other, public_key);
        }
        assert forall|i: int|
            0 <= i < pre.len() && #[trigger] pre[i].public_key@ == codec::b64(
                false,
                other,
            ) implies post.contains(pre[i]) by {
            assert(post[i] == pre[i]);
        }
        assert forall|i: int|
            0 <= i < post.len() && #[trigger] post[i].public_key@ == codec::b64(
                false,
                other,
            ) implies pre.contains(post[i]) by {
            assert(post[i] == pre[i]);
        }
        lemma_same_record(pre, post, other);
    }
}

/// The place of a key lies within the list, and strictly within if the key
/// occurs.
pub proof fn lemma_slot_within(ds: Seq<TrustedDevice>, key: Seq<char>)
    requires
        in_order(ds),
    ensures
        0 <= slot(ds, key) <= ds.len(),
        has(ds, key) ==> slot(ds, key) < ds.len(),
{
    lemma_slot(ds, key);
    if has(ds, key) {
        lemma_slot_of_present(ds, key);
    }
}

/// A key has a record if and only if the list holds one that reads as that key,
/// and that one is it.
pub proof fn lemma_lookup(ds: Seq<TrustedDevice>, public_key: Seq<u8>)
    requires
        in_order(ds),
        public_key.len() == 32,
    ensures
        match lookup(ds, public_key) {
            Some(d) => ds.contains(d) && d.spec_key() == Some(public_key),
            None => forall|i: int|
                0 <= i < ds.len() ==> (#[trigger] ds[i]).spec_key() != Some(public_key),
        },
{
    let key = codec::b64(false, public_key);
    keystore::lemma_b64_read(public_key);
    if has(ds, key) {
        lemma_slot_of_present(ds, key);
    } else {
        assert forall|i: int| 0 <= i < ds.len() implies (#[trigger] ds[i]).spec_key() != Some(
            public_key,
        ) by {
            assert(ds[i].public_key@ != key);
        }
    }
}

/// The record that a pairing leaves.
pub proof fn lemma_paired_record(
    pre: Seq<TrustedDevice>,
    post: Seq<TrustedDevice>,
    public_key: Seq<u8>,
    name: Seq<char>,
    now: u64,
)
    requires
        in_order(pre),
        added(pre, post, public_key, name, now, Ok(())),
    ensures
        lookup(post, public_key) matches Some(d) && {
            &&& d.name@ == util::clamped(name, 64)
            &&& d.last_seen_ms == now
            &&& !d.blocked
            &&& d.auto_accept_files == (lookup(pre, public_key) matches Some(was)
                && was.auto_accept_files)
            &&& d.added_at_ms == match lookup(pre, public_key) {
                Some(was) => was.added_at_ms,
                None => now,
            }
        },
{
    lemma_added(pre, post, public_key, name, now, Ok(()));
    let at = slot(pre, codec::b64(false, public_key));
    lemma_slot(pre, codec::b64(false, public_key));
    if has(pre, codec::b64(false, public_key)) {
        lemma_slot_of_present(pre, codec::b64(false, public_key));
    }
    lemma_found(post, at, public_key);
}

/// The time in milliseconds that a clock shows, given how long ago the Unix
/// epoch was; `None` where the clock stands before it.
pub open spec fn shown_ms(since: Option<std::time::Duration>) -> nat {
    match since {
        Some(d) => crypto::whole_millis(d) as nat % 0x1_0000_0000_0000_0000,
        None => 0,
    }
}

/// See [`shown_ms`].
pub fn ms_since(since: Option<std::time::Duration>) -> (r: u64)
    ensures
        r == shown_ms(since),
{
    match since {
        Some(d) => millis_to_u64(d.as_millis()),
        None => 0,
    }
}

/// Milliseconds since the Unix epoch; 0 where the clock stands before it. What
/// the clock shows is left open.
pub fn now_ms() -> (r: u64)
    ensures
        exists|since: Option<std::time::Duration>| r == #[trigger] shown_ms(since),
{
    ms_since(crypto::since_epoch())
}

/// The low 64 bits of a number of milliseconds.
pub fn millis_to_u64(ms: u128) -> (r: u64)
    ensures
        r == ms % 0x1_0000_0000_0000_0000,
{
    (ms % 0x1_0000_0000_0000_0000) as u64
}

} // verus!
