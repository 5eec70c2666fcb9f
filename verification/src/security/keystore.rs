//! Long term identity and its protection at rest.
//!
//! The static X25519 private key is the root of all trust in SyncMob: whoever
//! holds it can impersonate this device to every already-paired peer. It is
//! therefore never written to disk in the clear unless the user explicitly
//! opts out, and it is wrapped with XChaCha20-Poly1305 under an Argon2id
//! derived key.

use vstd::prelude::*;
use vstd::string::*;
use vstd::utf8::*;
use crate::bytes;
use crate::codec;
use crate::crypto;
use crate::crypto::Secret;
use crate::noise;
use crate::proto::NOISE_PARAMS;
use crate::security::fingerprint;
use crate::security::fingerprint::DeviceId;
use crate::text;

verus! {

/// Argon2id cost. ~64 MiB and three passes: comfortably above the point where
/// GPU cracking of a decent passphrase is cheap, still under a second on a
/// desktop CPU.
pub const ARGON_MEM_KIB: u32 = 65536;

pub const ARGON_TIME: u32 = 3;

pub const ARGON_LANES: u32 = 1;

pub const FORMAT_VERSION: u16 = 1;

pub const PROT_ARGON: &'static str = "argon2id-xchacha20poly1305";

pub const PROT_PLAIN: &'static str = "plaintext";

/// The domain separation string of subkeys.
pub const DOMAIN_SUBKEY: &'static str = "SyncMob/1 subkey";

#[derive(Debug, Clone)]
pub enum KeystoreError {
    NotFound,
    NeedPassphrase,
    UnexpectedPassphrase,
    WrongPassphrase,
    Corrupt(&'static str),
    Version(u16),
    Io(String),
    Crypto,
}

impl KeystoreError {
    pub open spec fn message(&self) -> Seq<char> {
        match self {
            KeystoreError::NotFound => "keystore file not found"@,
            KeystoreError::NeedPassphrase => "this keystore is passphrase protected"@,
            KeystoreError::UnexpectedPassphrase => "this keystore is not passphrase protected"@,
            KeystoreError::WrongPassphrase =>
                "wrong passphrase, or the keystore has been tampered with"@,
            KeystoreError::Corrupt(what) => "keystore is corrupt: "@ + what@,
            KeystoreError::Version(v) => "unsupported keystore version "@ + text::decimal(
                *v as nat,
            ),
            KeystoreError::Io(why) => "io: "@ + why@,
            KeystoreError::Crypto => "crypto backend failure"@,
        }
    }

    /// The error in words.
    pub fn text(&self) -> (r: String)
        ensures
            r@ == self.message(),
    {
        match self {
            KeystoreError::NotFound => "keystore file not found".to_string(),
            KeystoreError::NeedPassphrase => "this keystore is passphrase protected".to_string(),
            KeystoreError::UnexpectedPassphrase =>
                "this keystore is not passphrase protected".to_string(),
            KeystoreError::WrongPassphrase =>
                "wrong passphrase, or the keystore has been tampered with".to_string(),
            KeystoreError::Corrupt(what) => {
                let mut r = "keystore is corrupt: ".to_string();
                r.append(*what);
                r
            },
            KeystoreError::Version(v) => {
                let mut r = "unsupported keystore version ".to_string();
                r.append(text::decimal_text(*v as u64).as_str());
                r
            },
            KeystoreError::Io(why) => {
                let mut r = "io: ".to_string();
                r.append(why.as_str());
                r
            },
            KeystoreError::Crypto => "crypto backend failure".to_string(),
        }
    }
}

/// How the private key is protected on disk.
#[derive(Debug, Clone, Copy, PartialEq, Eq, Structural)]
pub enum Protection {
    /// Argon2id + XChaCha20-Poly1305 (recommended).
    Passphrase,
    /// Stored in the clear. Only ever chosen explicitly by the user.
    Plain,
}

/// What we can tell about an on-disk keystore without unlocking it.
#[derive(Debug, Clone, Copy, PartialEq, Eq, Structural)]
pub enum KeystoreState {
    Missing,
    Encrypted,
    Plaintext,
}

/// What reading a file and its JSON came to.
#[derive(Debug)]
pub enum Stored<T> {
    /// There is no such file.
    NotFound,
    /// The file could not be read.
    Failed(String),
    /// The file holds something else.
    Malformed,
    Parsed(T),
}

/// The contents of a keystore file.
#[derive(Debug, Clone)]
pub struct StoredKey {
    pub version: u16,
    pub protection: String,
    pub public: String,
    pub salt: Option<String>,
    pub nonce: Option<String>,
    pub secret: String,
}

/// This device's long term identity.
pub struct Identity {
    secret: Secret,
    public: Vec<u8>,
    protection: Protection,
}

/// The bytes of which a string is the standard base64 form, if it is one.
pub open spec fn b64_read(s: Seq<char>) -> Option<Seq<u8>> {
    if exists|v: Seq<u8>| #[trigger] codec::b64(false, v) == s {
        Some(choose|v: Seq<u8>| #[trigger] codec::b64(false, v) == s)
    } else {
        None
    }
}

pub proof fn lemma_b64_read(v: Seq<u8>)
    ensures
        b64_read(codec::b64(false, v)) == Some(v),
{
    let s = codec::b64(false, v);
    let w = choose|w: Seq<u8>| #[trigger] codec::b64(false, w) == s;
    codec::lemma_b64_injective(false, v, w);
}

/// Standard base64 read back; see [`b64_read`].
pub fn read_b64(s: &str) -> (r: Option<Vec<u8>>)
    ensures
        match r {
            Some(v) => b64_read(s@) == Some(v@) && s@ == codec::b64(false, v@),
            None => b64_read(s@) is None,
        },
{
    let r = codec::b64_decode(s);
    proof {
        if r is Some {
            lemma_b64_read(r->0@);
        }
    }
    r
}

/// The key that a passphrase and a salt give.
pub open spec fn wrapping_key(pass: Seq<char>, salt: Seq<u8>) -> Option<Seq<u8>> {
    crypto::argon2id(encode_utf8(pass), salt, ARGON_MEM_KIB, ARGON_TIME, ARGON_LANES, 32)
}

/// What a keystore opens to under a passphrase: the private key, the public key
/// and how they were protected; or the first thing that is wrong with it.
pub open spec fn opened(k: StoredKey, pass: Option<Seq<char>>) -> Result<
    (Seq<u8>, Seq<u8>, Protection),
    KeystoreError,
> {
    if k.version != FORMAT_VERSION {
        Err(KeystoreError::Version(k.version))
    } else if b64_read(k.public@) is None {
        Err(KeystoreError::Corrupt("public"))
    } else if b64_read(k.public@)->0.len() != 32 {
        Err(KeystoreError::Corrupt("public length"))
    } else if b64_read(k.secret@) is None {
        Err(KeystoreError::Corrupt("secret"))
    } else {
        let public = b64_read(k.public@)->0;
        let blob = b64_read(k.secret@)->0;
        if k.protection@ == PROT_PLAIN@ {
            if pass is Some {
                Err(KeystoreError::UnexpectedPassphrase)
            } else {
                with_secret(blob, public, Protection::Plain)
            }
        } else if k.protection@ == PROT_ARGON@ {
            if pass is None {
                Err(KeystoreError::NeedPassphrase)
            } else if !(k.salt matches Some(s) && b64_read(s@) is Some) {
                Err(KeystoreError::Corrupt("salt"))
            } else if !(k.nonce matches Some(s) && b64_read(s@) is Some) {
                Err(KeystoreError::Corrupt("nonce"))
            } else {
                let salt = b64_read(k.salt->0@)->0;
                let nonce = b64_read(k.nonce->0@)->0;
                if salt.len() != 16 || nonce.len() != 24 {
                    Err(KeystoreError::Corrupt("salt/nonce length"))
                } else {
                    match wrapping_key(pass->0, salt) {
                        None => Err(KeystoreError::Crypto),
                        Some(key) => match crypto::xchacha_open(key, nonce, blob, public) {
                            None => Err(KeystoreError::WrongPassphrase),
                            Some(pt) => with_secret(pt, public, Protection::Passphrase),
                        },
                    }
                }
            }
        } else {
            Err(KeystoreError::Corrupt("protection"))
        }
    }
}

pub open spec fn with_secret(secret: Seq<u8>, public: Seq<u8>, protection: Protection) -> Result<
    (Seq<u8>, Seq<u8>, Protection),
    KeystoreError,
> {
    if secret.len() != 32 {
        Err(KeystoreError::Corrupt("secret length"))
    } else {
        Ok((secret, public, protection))
    }
}

/// The keystore that a pair of keys is written as under a passphrase, a salt and
/// a nonce.
pub open spec fn locked_by(
    k: StoredKey,
    secret: Seq<u8>,
    public: Seq<u8>,
    pass: Seq<char>,
    salt: Seq<u8>,
    nonce: Seq<u8>,
) -> bool {
    &&& salt.len() == 16
    &&& nonce.len() == 24
    &&& k.version == FORMAT_VERSION
    &&& k.protection@ == PROT_ARGON@
    &&& k.public@ == codec::b64(false, public)
    &&& k.salt matches Some(s) && s@ == codec::b64(false, salt)
    &&& k.nonce matches Some(s) && s@ == codec::b64(false, nonce)
    &&& wrapping_key(pass, salt) matches Some(key) && crypto::xchacha_seal(
        key,
        nonce,
        secret,
        public,
    ) matches Some(ct) && k.secret@ == codec::b64(false, ct) && crypto::xchacha_open(
        key,
        nonce,
        ct,
        public,
    ) == Some(secret)
}

/// The keystore that a pair of keys is written as without a passphrase.
pub open spec fn unlocked(k: StoredKey, secret: Seq<u8>, public: Seq<u8>) -> bool {
    &&& k.version == FORMAT_VERSION
    &&& k.protection@ == PROT_PLAIN@
    &&& k.public@ == codec::b64(false, public)
    &&& k.salt is None
    &&& k.nonce is None
    &&& k.secret@ == codec::b64(false, secret)
}

pub open spec fn pass_view(pass: Option<&str>) -> Option<Seq<char>> {
    match pass {
        Some(p) => Some(p@),
        None => None,
    }
}

/// The input of a subkey: the domain string, the length of the domain as four
/// bytes, the domain and the private key.
pub open spec fn subkey_input(domain: Seq<u8>, secret: Seq<u8>) -> Seq<u8> {
    encode_utf8(DOMAIN_SUBKEY@) + bytes::be_bytes(domain.len(), 4) + domain + secret
}

pub open spec fn protection_name(p: Protection) -> Seq<char> {
    match p {
        Protection::Passphrase => "Passphrase"@,
        Protection::Plain => "None"@,
    }
}

impl Identity {
    #[verifier::type_invariant]
    spec fn keys_are_32_bytes(self) -> bool {
        crypto::secret_bytes(self.secret).len() == 32 && self.public@.len() == 32
    }

    /// The private key.
    pub closed spec fn spec_private(&self) -> Seq<u8> {
        crypto::secret_bytes(self.secret)
    }

    /// The public key.
    pub closed spec fn spec_public(&self) -> Seq<u8> {
        self.public@
    }

    pub closed spec fn spec_protection(&self) -> Protection {
        self.protection
    }

    /// Generate a fresh X25519 static keypair using the OS CSPRNG.
    pub fn generate() -> (r: Result<Self, KeystoreError>)
        ensures
            match r {
                Ok(id) => id.spec_private().len() == 32 && id.spec_public() == noise::x25519_public(
                    id.spec_private(),
                ) && id.spec_public().len() == 32 && id.spec_protection() == Protection::Plain,
                Err(e) => e == KeystoreError::Crypto,
            },
    {
        match noise::generate_keypair(NOISE_PARAMS) {
            Ok((private, public)) => Ok(
                Identity { secret: Secret::new(private), public, protection: Protection::Plain },
            ),
            Err(_) => Err(KeystoreError::Crypto),
        }
    }

    pub fn public_key(&self) -> (r: &[u8])
        ensures
            r@ == self.spec_public(),
            r@.len() == 32,
    {
        proof {
            use_type_invariant(self);
        }
        self.public.as_slice()
    }

    /// Access to the private key, limited to what `snow` needs to build a
    /// handshake state.
    pub fn private_key(&self) -> (r: &[u8])
        ensures
            r@ == self.spec_private(),
            r@.len() == 32,
    {
        proof {
            use_type_invariant(self);
        }
        self.secret.expose()
    }

    pub fn protection(&self) -> (r: Protection)
        ensures
            r == self.spec_protection(),
    {
        self.protection
    }

    pub fn device_id(&self) -> (r: DeviceId)
        ensures
            r.0@ == fingerprint::device_bytes(self.spec_public()),
    {
        fingerprint::device_id(self.public.as_slice())
    }

    pub fn fingerprint(&self) -> (r: String)
        ensures
            r@ == fingerprint::fingerprint_text(self.spec_public()),
    {
        fingerprint::fingerprint(self.public.as_slice())
    }

    /// A description without key material, not even accidentally.
    pub fn describe(&self) -> (r: String)
        ensures
            r@ == "Identity { device_id: \""@ + codec::hex(
                fingerprint::device_bytes(self.spec_public()),
            ) + "\", protection: "@ + protection_name(self.spec_protection())
                + ", secret: \"<redacted>\" }"@,
    {
        let mut r = "Identity { device_id: \"".to_string();
        r.append(self.device_id().text().as_str());
        r.append("\", protection: ");
        match self.protection {
            Protection::Passphrase => r.append("Passphrase"),
            Protection::Plain => r.append("None"),
        }
        r.append(", secret: \"<redacted>\" }");
        r
    }

    /// Derive an independent subkey from the private key.
    ///
    /// Used to authenticate the trust store so that an attacker who can write
    /// to the profile directory cannot silently insert a trusted key without
    /// also holding the identity.
    pub fn derive_subkey(&self, domain: &[u8]) -> (r: Secret)
        ensures
            crypto::secret_bytes(r) == crypto::blake2s(subkey_input(domain@, self.spec_private())),
            crypto::secret_bytes(r).len() == 32,
    {
        let mut input: Vec<u8> = Vec::new();
        bytes::append_slice(&mut input, DOMAIN_SUBKEY.as_bytes());
        bytes::append_slice(&mut input, bytes::write_be(domain.len() as u64, 4).as_slice());
        bytes::append_slice(&mut input, domain);
        bytes::append_slice(&mut input, self.secret.expose());
        proof {
            assert(input@ =~= subkey_input(domain@, self.spec_private()));
        }
        Secret::new(crypto::blake2s_digest(input.as_slice()))
    }

    /// Inspect a keystore file without unlocking it.
    pub fn state(file: &Stored<StoredKey>) -> (r: KeystoreState)
        ensures
            r == match *file {
                Stored::Parsed(k) => if k.protection@ == PROT_ARGON@ {
                    KeystoreState::Encrypted
                } else {
                    KeystoreState::Plaintext
                },
                _ => KeystoreState::Missing,
            },
    {
        match file {
            Stored::Parsed(k) => if text::str_eq(k.protection.as_str(), PROT_ARGON) {
                KeystoreState::Encrypted
            } else {
                KeystoreState::Plaintext
            },
            _ => KeystoreState::Missing,
        }
    }

    /// Load and, if necessary, decrypt the identity.
    pub fn load(file: Stored<StoredKey>, passphrase: Option<&str>) -> (r: Result<
        Self,
        KeystoreError,
    >)
        ensures
            match file {
                Stored::NotFound => r matches Err(e) && e == KeystoreError::NotFound,
                Stored::Failed(why) => r matches Err(e) && e == KeystoreError::Io(why),
                Stored::Malformed => r matches Err(e) && e == KeystoreError::Corrupt("json"),
                Stored::Parsed(k) => match r {
                    Ok(id) => opened(k, pass_view(passphrase)) == Ok::<_, KeystoreError>(
                        (id.spec_private(), id.spec_public(), id.spec_protection()),
                    ),
                    Err(e) => opened(k, pass_view(passphrase)) == Err::<
                        (Seq<u8>, Seq<u8>, Protection),
                        _,
                    >(e),
                },
            },
    {
        let stored = match file {
            Stored::NotFound => return Err(KeystoreError::NotFound),
            Stored::Failed(why) => return Err(KeystoreError::Io(why)),
            Stored::Malformed => return Err(KeystoreError::Corrupt("json")),
            Stored::Parsed(k) => k,
        };
        if stored.version != FORMAT_VERSION {
            return Err(KeystoreError::Version(stored.version));
        }
        let public = match read_b64(stored.public.as_str()) {
            Some(v) => v,
            None => return Err(KeystoreError::Corrupt("public")),
        };
        if public.len() != 32 {
            return Err(KeystoreError::Corrupt("public length"));
        }
        let blob = match read_b64(stored.secret.as_str()) {
            Some(v) => v,
            None => return Err(KeystoreError::Corrupt("secret")),
        };
        if text::str_eq(stored.protection.as_str(), PROT_PLAIN) {
            if passphrase.is_some() {
                return Err(KeystoreError::UnexpectedPassphrase);
            }
            if blob.len() != 32 {
                return Err(KeystoreError::Corrupt("secret length"));
            }
            return Ok(Identity { secret: Secret::new(blob), public, protection: Protection::Plain });
        }
        if !text::str_eq(stored.protection.as_str(), PROT_ARGON) {
            return Err(KeystoreError::Corrupt("protection"));
        }
        let pass = match passphrase {
            Some(p) => p,
            None => return Err(KeystoreError::NeedPassphrase),
        };
        let salt = match &stored.salt {
            Some(s) => match read_b64(s.as_str()) {
                Some(v) => v,
                None => return Err(KeystoreError::Corrupt("salt")),
            },
            None => return Err(KeystoreError::Corrupt("salt")),
        };
        let nonce = match &stored.nonce {
            Some(s) => match read_b64(s.as_str()) {
                Some(v) => v,
                None => return Err(KeystoreError::Corrupt("nonce")),
            },
            None => return Err(KeystoreError::Corrupt("nonce")),
        };
        if salt.len() != 16 || nonce.len() != 24 {
            return Err(KeystoreError::Corrupt("salt/nonce length"));
        }
        let key = match derive_key(pass, salt.as_slice()) {
            Ok(k) => k,
            Err(e) => return Err(e),
        };
        // The public key is authenticated as associated data: swapping in a
        // different public key invalidates the tag.
        let pt = match crypto::open(
            key.expose(),
            nonce.as_slice(),
            blob.as_slice(),
            public.as_slice(),
        ) {
            Some(pt) => pt,
            None => return Err(KeystoreError::WrongPassphrase),
        };
        if pt.len() != 32 {
            return Err(KeystoreError::Corrupt("secret length"));
        }
        Ok(Identity { secret: Secret::new(pt), public, protection: Protection::Passphrase })
    }

    /// The keystore contents for this identity, encrypted when a passphrase is
    /// given, be it empty, under the given salt and nonce.
    pub fn save_with(&mut self, passphrase: Option<&str>, salt: &[u8], nonce: &[u8]) -> (r: Result<
        StoredKey,
        KeystoreError,
    >)
        requires
            salt@.len() == 16,
            nonce@.len() == 24,
        ensures
            final(self).spec_private() == old(self).spec_private(),
            final(self).spec_public() == old(self).spec_public(),
            match r {
                Ok(k) => if passphrase is Some {
                    &&& final(self).spec_protection() == Protection::Passphrase
                    &&& locked_by(
                        k,
                        old(self).spec_private(),
                        old(self).spec_public(),
                        passphrase->0@,
                        salt@,
                        nonce@,
                    )
                } else {
                    &&& final(self).spec_protection() == Protection::Plain
                    &&& unlocked(k, old(self).spec_private(), old(self).spec_public())
                },
                Err(e) => {
                    &&& e == KeystoreError::Crypto
                    &&& passphrase is Some
                    &&& wrapping_key(passphrase->0@, salt@) is None
                    &&& encode_utf8(passphrase->0@).len() > 0xffff_ffff
                    &&& final(self).spec_protection() == old(self).spec_protection()
                },
            },
    {
        proof {
            use_type_invariant(&*self);
        }
        if let Some(pass) = passphrase {
            let key = match derive_key(pass, salt) {
                Ok(k) => k,
                Err(e) => return Err(e),
            };
            let ct = match crypto::seal(
                key.expose(),
                nonce,
                self.secret.expose(),
                self.public.as_slice(),
            ) {
                Some(ct) => ct,
                None => return Err(KeystoreError::Crypto),
            };
            self.protection = Protection::Passphrase;
            return Ok(
                StoredKey {
                    version: FORMAT_VERSION,
                    protection: PROT_ARGON.to_string(),
                    public: codec::b64_encode(self.public.as_slice()),
                    salt: Some(codec::b64_encode(salt)),
                    nonce: Some(codec::b64_encode(nonce)),
                    secret: codec::b64_encode(ct.as_slice()),
                },
            );
        }
        self.protection = Protection::Plain;
        Ok(
            StoredKey {
                version: FORMAT_VERSION,
                protection: PROT_PLAIN.to_string(),
                public: codec::b64_encode(self.public.as_slice()),
                salt: None,
                nonce: None,
                secret: codec::b64_encode(self.secret.expose()),
            },
        )
    }

    /// The keystore contents for this identity, encrypted under a fresh salt
    /// and nonce when a passphrase is given, be it empty. Only without one is
    /// the private key written in the clear.
    pub fn save(&mut self, passphrase: Option<&str>) -> (r: Result<StoredKey, KeystoreError>)
        ensures
            final(self).spec_private() == old(self).spec_private(),
            final(self).spec_public() == old(self).spec_public(),
            match r {
                Ok(k) => if passphrase is Some {
                    &&& final(self).spec_protection() == Protection::Passphrase
                    &&& exists|salt: Seq<u8>, nonce: Seq<u8>| #[trigger]
                        locked_by(
                            k,
                            old(self).spec_private(),
                            old(self).spec_public(),
                            passphrase->0@,
                            salt,
                            nonce,
                        )
                } else {
                    &&& final(self).spec_protection() == Protection::Plain
                    &&& unlocked(k, old(self).spec_private(), old(self).spec_public())
                },
                Err(e) => {
                    &&& e == KeystoreError::Crypto
                    &&& passphrase is Some
                    &&& encode_utf8(passphrase->0@).len() > 0xffff_ffff
                    &&& final(self).spec_protection() == old(self).spec_protection()
                },
            },
    {
        let salt = crypto::random_bytes(16);
        let nonce = crypto::random_bytes(24);
        self.save_with(passphrase, salt.as_slice(), nonce.as_slice())
    }
}

fn derive_key(passphrase: &str, salt: &[u8]) -> (r: Result<Secret, KeystoreError>)
    requires
        salt@.len() == 16,
    ensures
        match r {
            Ok(k) => wrapping_key(passphrase@, salt@) == Some(crypto::secret_bytes(k))
                && crypto::secret_bytes(k).len() == 32,
            Err(e) => e == KeystoreError::Crypto && wrapping_key(passphrase@, salt@) is None
                && encode_utf8(passphrase@).len() > 0xffff_ffff,
        },
{
    match crypto::argon2id_hash(
        passphrase.as_bytes(),
        salt,
        ARGON_MEM_KIB,
        ARGON_TIME,
        ARGON_LANES,
        32,
    ) {
        Some(k) => Ok(k),
        None => Err(KeystoreError::Crypto),
    }
}

/// A keystore that was locked with a passphrase opens with that passphrase, to
/// the keys that were locked in, and not without one.
pub proof fn law_locked_keystore_opens(
    k: StoredKey,
    pass: Seq<char>,
    secret: Seq<u8>,
    public: Seq<u8>,
    salt: Seq<u8>,
    nonce: Seq<u8>,
)
    requires
        secret.len() == 32,
        public.len() == 32,
        locked_by(k, secret, public, pass, salt, nonce),
    ensures
        opened(k, Some(pass)) == Ok::<_, KeystoreError>((secret, public, Protection::Passphrase)),
        opened(k, None) == Err::<(Seq<u8>, Seq<u8>, Protection), _>(KeystoreError::NeedPassphrase),
{
    lemma_protections_differ();
    lemma_b64_read(public);
    lemma_b64_read(salt);
    lemma_b64_read(nonce);
    let key = wrapping_key(pass, salt)->0;
    lemma_b64_read(crypto::xchacha_seal(key, nonce, secret, public)->0);
}

/// A locked keystore yields no key to a passphrase, or beside a public key,
/// under which the cipher does not open it: not another passphrase than it was
/// locked with, and not another public key than it was locked for. Which those
/// are is up to the cipher.
pub proof fn law_refused_keystore_stays_closed(
    k: StoredKey,
    pass: Seq<char>,
    secret: Seq<u8>,
    public: Seq<u8>,
    salt: Seq<u8>,
    nonce: Seq<u8>,
    altered: StoredKey,
    claimed: Seq<u8>,
    tried: Seq<char>,
)
    requires
        locked_by(k, secret, public, pass, salt, nonce),
        altered == (StoredKey { public: altered.public, ..k }),
        altered.public@ == codec::b64(false, claimed),
        claimed.len() == 32,
        wrapping_key(tried, salt) matches Some(key) && crypto::xchacha_open(
            key,
            nonce,
            crypto::xchacha_seal(wrapping_key(pass, salt)->0, nonce, secret, public)->0,
            claimed,
        ) is None,
    ensures
        opened(altered, Some(tried)) == Err::<(Seq<u8>, Seq<u8>, Protection), _>(
            KeystoreError::WrongPassphrase,
        ),
{
    lemma_protections_differ();
    lemma_b64_read(claimed);
    lemma_b64_read(salt);
    lemma_b64_read(nonce);
    lemma_b64_read(
        crypto::xchacha_seal(wrapping_key(pass, salt)->0, nonce, secret, public)->0,
    );
}

/// A keystore that was written without a passphrase opens without one, to the
/// keys that were written, and refuses a passphrase.
pub proof fn law_unlocked_keystore_opens(
    k: StoredKey,
    secret: Seq<u8>,
    public: Seq<u8>,
    pass: Seq<char>,
)
    requires
        secret.len() == 32,
        public.len() == 32,
        unlocked(k, secret, public),
    ensures
        opened(k, None) == Ok::<_, KeystoreError>((secret, public, Protection::Plain)),
        opened(k, Some(pass)) == Err::<(Seq<u8>, Seq<u8>, Protection), _>(
            KeystoreError::UnexpectedPassphrase,
        ),
{
    lemma_b64_read(public);
    lemma_b64_read(secret);
}

proof fn lemma_protections_differ()
    ensures
        PROT_ARGON@ != PROT_PLAIN@,
{
    reveal_strlit("argon2id-xchacha20poly1305");
    reveal_strlit("plaintext");
    assert(PROT_ARGON@.len() != PROT_PLAIN@.len());
}

/// The two kinds of keystore are told apart.
pub proof fn lemma_plain_is_not_locked()
    ensures
        PROT_PLAIN@ != PROT_ARGON@,
{
    lemma_protections_differ();
}

/// Subkeys of one identity for two domains are never derived from the same
/// bytes.
pub proof fn law_subkey_inputs_differ(a: Seq<u8>, b: Seq<u8>, secret: Seq<u8>)
    requires
        a != b,
        a.len() < 0x1_0000_0000,
        b.len() < 0x1_0000_0000,
    ensures
        subkey_input(a, secret) != subkey_input(b, secret),
{
    let d = encode_utf8(DOMAIN_SUBKEY@);
    bytes::lemma_be_bytes_len(a.len(), 4);
    bytes::lemma_be_bytes_len(b.len(), 4);
    let x = subkey_input(a, secret);
    let y = subkey_input(b, secret);
    if x == y {
        assert(x.len() == d.len() + 4 + a.len() + secret.len());
        assert(y.len() == d.len() + 4 + b.len() + secret.len());
        let from = (d.len() + 4) as int;
        assert(x.subrange(from, from + a.len()) =~= a);
        assert(y.subrange(from, from + b.len()) =~= b);
    }
}

} // verus!
