//! The cryptographic primitives that the library builds on, and the clock.
//!
//! Each function here hands its arguments to one outside function. What that
//! function computes is named, and the few facts that the rest of the library
//! rests on are stated beside the name.

use argon2::{Algorithm, Argon2, Params, Version};
use blake2::{Blake2s256, Digest as _};
use chacha20poly1305::aead::{Aead as _, Payload};
use chacha20poly1305::{Key, KeyInit as _, XChaCha20Poly1305, XNonce};
use rand::RngCore as _;
use subtle::ConstantTimeEq as _;
use vstd::prelude::*;
use zeroize::Zeroizing;

verus! {

/// The BLAKE2s-256 digest of a byte sequence.
pub uninterp spec fn blake2s(data: Seq<u8>) -> Seq<u8>;

/// `blake2::Blake2s256::digest`: the 32-byte digest of the data.
#[verifier::external_body]
pub(crate) fn blake2s_digest(data: &[u8]) -> (r: Vec<u8>)
    ensures
        r@ == blake2s(data@),
        r@.len() == 32,
{
    Blake2s256::digest(data).to_vec()
}

/// The SHA-256 digest of a byte sequence.
pub uninterp spec fn sha256(data: Seq<u8>) -> Seq<u8>;

/// A SHA-256 computation in progress: the state that `sha2::Sha256` holds,
/// which is read through [`hashed`] alone.
#[verifier::external_body]
pub struct Hasher {
    state: sha2::Sha256,
}

/// The bytes that a hasher has been fed so far.
pub uninterp spec fn hashed(h: Hasher) -> Seq<u8>;

impl Hasher {
    /// `sha2::Sha256::new`: nothing has been fed yet.
    #[verifier::external_body]
    pub(crate) fn new() -> (r: Hasher)
        ensures
            hashed(r) == Seq::<u8>::empty(),
    {
        Hasher { state: sha2::Sha256::new() }
    }

    /// `sha2::Sha256::update`: feeds `data` after what was fed before.
    #[verifier::external_body]
    pub(crate) fn update(&mut self, data: &[u8])
        ensures
            hashed(*final(self)) == hashed(*old(self)) + data@,
    {
        self.state.update(data);
    }

    /// `sha2::Sha256::finalize`: the 32-byte digest of all that was fed.
    #[verifier::external_body]
    pub(crate) fn finalize(self) -> (r: Vec<u8>)
        ensures
            r@ == sha256(hashed(self)),
            r@.len() == 32,
    {
        self.state.finalize().to_vec()
    }
}

/// Bytes that are wiped from memory when they are dropped: what
/// `zeroize::Zeroizing` holds, which is read through [`secret_bytes`] alone. The
/// wiping is not stated.
#[verifier::external_body]
pub struct Secret {
    bytes: Zeroizing<Vec<u8>>,
}

/// The bytes that a secret holds.
pub uninterp spec fn secret_bytes(s: Secret) -> Seq<u8>;

impl Secret {
    /// `zeroize::Zeroizing::new`: takes the bytes over.
    #[verifier::external_body]
    pub(crate) fn new(bytes: Vec<u8>) -> (r: Secret)
        ensures
            secret_bytes(r) == bytes@,
    {
        Secret { bytes: Zeroizing::new(bytes) }
    }

    /// `zeroize::Zeroizing::deref`: the bytes that were taken over.
    #[verifier::external_body]
    pub(crate) fn expose(&self) -> (r: &[u8])
        ensures
            r@ == secret_bytes(*self),
    {
        &self.bytes
    }

    /// Whether two secrets hold the same bytes.
    pub fn same_as(&self, other: &Secret) -> (r: bool)
        ensures
            r == (secret_bytes(*self) == secret_bytes(*other)),
    {
        let a = self.expose();
        let b = other.expose();
        a.len() == b.len() && constant_time_eq(a, b)
    }
}

/// The Argon2id (version 0x13) hash of `len` bytes of a password under a salt,
/// for a memory size in KiB, a number of passes and a number of lanes; `None`
/// where the parameters, the password or the salt are refused.
pub uninterp spec fn argon2id(
    password: Seq<u8>,
    salt: Seq<u8>,
    memory: u32,
    passes: u32,
    lanes: u32,
    len: usize,
) -> Option<Seq<u8>>;

/// `argon2::Argon2::hash_password_into` with `Algorithm::Argon2id`: fills a
/// buffer of `len` bytes. It refuses no input within the limits that the crate
/// documents: at least one pass and one lane, 8 KiB for each lane, 4 bytes of
/// output, 8 bytes of salt, and 2^32 - 1 bytes of password and salt at most.
#[verifier::external_body]
pub(crate) fn argon2id_hash(
    password: &[u8],
    salt: &[u8],
    memory: u32,
    passes: u32,
    lanes: u32,
    len: usize,
) -> (r: Option<Secret>)
    requires
        lanes <= 0xff_ffff,
        memory <= 0x10_0000,
        len <= 1024,
    ensures
        match r {
            Some(k) => argon2id(password@, salt@, memory, passes, lanes, len) == Some(
                secret_bytes(k),
            ) && secret_bytes(k).len() == len,
            None => argon2id(password@, salt@, memory, passes, lanes, len) is None,
        },
        passes >= 1 && lanes >= 1 && memory >= 8 * lanes && len >= 4 && password@.len()
            <= 0xffff_ffff && 8 <= salt@.len() <= 0xffff_ffff ==> r is Some,
{
    let params = Params::new(memory, passes, lanes, Some(len)).ok()?;
    let argon = Argon2::new(Algorithm::Argon2id, Version::V0x13, params);
    let mut key = Zeroizing::new(vec![0u8; len]);
    argon.hash_password_into(password, salt, &mut key).ok()?;
    Some(Secret { bytes: key })
}

/// What XChaCha20-Poly1305 makes of a message and associated data under a key
/// and a nonce; `None` where the message is too long.
pub uninterp spec fn xchacha_seal(
    key: Seq<u8>,
    nonce: Seq<u8>,
    msg: Seq<u8>,
    aad: Seq<u8>,
) -> Option<Seq<u8>>;

/// What XChaCha20-Poly1305 reads out of a sealed message; `None` where the tag
/// does not fit.
pub uninterp spec fn xchacha_open(
    key: Seq<u8>,
    nonce: Seq<u8>,
    sealed: Seq<u8>,
    aad: Seq<u8>,
) -> Option<Seq<u8>>;

/// `XChaCha20Poly1305::encrypt`: the sealed message is 16 bytes longer than the
/// message and opens to it. It refuses only messages of 2^32 - 1 blocks of 64
/// bytes and more.
#[verifier::external_body]
pub(crate) fn seal(key: &[u8], nonce: &[u8], msg: &[u8], aad: &[u8]) -> (r: Option<Vec<u8>>)
    requires
        key@.len() == 32,
        nonce@.len() == 24,
        msg@.len() + 16 <= usize::MAX / 2,
    ensures
        match r {
            Some(sealed) => {
                &&& xchacha_seal(key@, nonce@, msg@, aad@) == Some(sealed@)
                &&& xchacha_open(key@, nonce@, sealed@, aad@) == Some(msg@)
                &&& sealed@.len() == msg@.len() + 16
            },
            None => xchacha_seal(key@, nonce@, msg@, aad@) is None,
        },
        msg@.len() / 64 < u32::MAX ==> r is Some,
{
    let cipher = XChaCha20Poly1305::new(Key::from_slice(key));
    cipher.encrypt(XNonce::from_slice(nonce), Payload { msg, aad }).ok()
}

/// `XChaCha20Poly1305::decrypt`: the message, 16 bytes shorter than what was
/// opened, or nothing.
#[verifier::external_body]
pub(crate) fn open(key: &[u8], nonce: &[u8], sealed: &[u8], aad: &[u8]) -> (r: Option<Vec<u8>>)
    requires
        key@.len() == 32,
        nonce@.len() == 24,
    ensures
        match r {
            Some(msg) => {
                &&& xchacha_open(key@, nonce@, sealed@, aad@) == Some(msg@)
                &&& sealed@.len() == msg@.len() + 16
            },
            None => xchacha_open(key@, nonce@, sealed@, aad@) is None,
        },
{
    let cipher = XChaCha20Poly1305::new(Key::from_slice(key));
    cipher.decrypt(XNonce::from_slice(nonce), Payload { msg: sealed, aad }).ok()
}

/// `RngCore::fill_bytes` of `rand::rng()`: `n` bytes, of which nothing is
/// known.
#[verifier::external_body]
pub(crate) fn random_bytes(n: usize) -> (r: Vec<u8>)
    requires
        n <= 1024,
    ensures
        r@.len() == n,
{
    let mut b = vec![0u8; n];
    rand::rng().fill_bytes(&mut b);
    b
}

/// `subtle::ConstantTimeEq::ct_eq` on slices: whether they hold the same bytes.
/// The time that it takes is not stated.
#[verifier::external_body]
pub(crate) fn constant_time_eq(a: &[u8], b: &[u8]) -> (r: bool)
    ensures
        r == (a@ == b@),
{
    a.ct_eq(b).into()
}

/// `SystemTime::elapsed` of the Unix epoch: the time since then, or nothing
/// where the clock stands before it.
#[verifier::external_body]
pub(crate) fn since_epoch() -> (r: Option<std::time::Duration>) {
    std::time::UNIX_EPOCH.elapsed().ok()
}

/// The whole milliseconds of a span of time.
pub uninterp spec fn whole_millis(d: std::time::Duration) -> u128;

/// `Duration::as_millis`: the whole milliseconds of the span.
pub assume_specification[ std::time::Duration::as_millis ](d: &std::time::Duration) -> (r: u128)
    ensures
        r == whole_millis(*d),
;

} // verus!
