//! Human-verifiable representations of keys.
//!
//! Three distinct values, each with its own domain separation string so that
//! one can never be replayed as another:
//!
//! * [`device_id`] — a short stable handle used in the UI and in maps.
//! * [`fingerprint`] — the value a user compares to authenticate a *key*.
//! * [`sas_code`] — the value a user compares to authenticate a *session*.

use vstd::prelude::*;
use vstd::string::*;
use vstd::utf8::*;
use crate::bytes;
use crate::codec;
use crate::crypto;
use crate::text;

verus! {

pub const DOMAIN_ID: &'static str = "SyncMob/1 device-id";

pub const DOMAIN_FP: &'static str = "SyncMob/1 fingerprint";

pub const DOMAIN_SAS: &'static str = "SyncMob/1 sas";

/// Short, stable identifier derived from the static public key.
///
/// It is a *hash*, not the key itself, and is never used for authentication —
/// only as a map key and a UI label.
#[derive(Clone, Copy, PartialEq, Eq, Hash, PartialOrd, Ord, Debug)]
pub struct DeviceId(pub [u8; 8]);

/// The array of the first 8 bytes of a slice.
fn head8(v: &[u8]) -> (r: [u8; 8])
    requires
        v@.len() >= 8,
    ensures
        r@ == v@.take(8),
{
    let mut r = [0u8; 8];
    let mut i: usize = 0;
    while i < 8
        invariant
            i <= 8 <= v@.len(),
            r@.len() == 8,
            forall|j: int| 0 <= j < i ==> r@[j] == v@[j],
        decreases 8 - i,
    {
        r[i] = v[i];
        i = i + 1;
    }
    proof {
        assert(r@ =~= v@.take(8));
    }
    r
}

impl DeviceId {
    pub fn as_bytes(&self) -> (r: &[u8; 8])
        ensures
            *r == self.0,
    {
        &self.0
    }

    /// Reads an identifier written in hexadecimal digits of either case.
    pub fn parse(s: &str) -> (r: Option<Self>)
        ensures
            match r {
                Some(id) => text::lower_all(s@) == codec::hex(id.0@),
                None => forall|id: DeviceId|
                    #![trigger codec::hex(id.0@)]
                    text::lower_all(s@) != codec::hex(id.0@),
            },
    {
        match codec::hex_decode(s) {
            Ok(v) => {
                if v.len() != 8 {
                    proof {
                        assert forall|id: DeviceId| text::lower_all(s@) != #[trigger] codec::hex(
                            id.0@,
                        ) by {
                            if text::lower_all(s@) == codec::hex(id.0@) {
                                codec::lemma_hex_injective(id.0@, v@);
                            }
                        }
                    }
                    return None;
                }
                let id = DeviceId(head8(v.as_slice()));
                proof {
                    assert(id.0@ =~= v@);
                }
                Some(id)
            },
            Err(_) => None,
        }
    }

    /// The eight bytes, as lowercase hex.
    pub fn text(&self) -> (r: String)
        ensures
            r@ == codec::hex(self.0@),
    {
        codec::hex_encode(self.0.as_slice())
    }

    /// The number that the eight bytes write.
    pub open spec fn spec_key(&self) -> nat {
        bytes::be_value(self.0@)
    }

    /// The number that the eight bytes write, by which tables find the device.
    pub fn key(&self) -> (r: u64)
        ensures
            r == self.spec_key(),
    {
        proof {
            assert(self.0@.subrange(0, 8) =~= self.0@);
        }
        bytes::read_be(self.0.as_slice(), 0, 8)
    }
}

/// Identifiers are told apart by their numbers.
pub proof fn lemma_device_key_injective(a: DeviceId, b: DeviceId)
    requires
        a.spec_key() == b.spec_key(),
    ensures
        a == b,
{
    bytes::lemma_be_value_injective(a.0@, b.0@);
    assert(a.0 =~= b.0);
}

/// The digest of some data under a domain separation string.
pub open spec fn tagged(domain: Seq<char>, data: Seq<u8>) -> Seq<u8> {
    crypto::blake2s(encode_utf8(domain) + data)
}

fn tagged_digest(domain: &str, data: &[u8]) -> (r: Vec<u8>)
    ensures
        r@ == tagged(domain@, data@),
        r@.len() == 32,
{
    let mut input: Vec<u8> = Vec::new();
    bytes::append_slice(&mut input, domain.as_bytes());
    bytes::append_slice(&mut input, data);
    proof {
        assert(input@ =~= encode_utf8(domain@) + data@);
    }
    crypto::blake2s_digest(input.as_slice())
}

/// The bytes of the device identifier of a public key.
pub open spec fn device_bytes(public_key: Seq<u8>) -> Seq<u8> {
    tagged(DOMAIN_ID@, public_key).take(8)
}

/// Derive the short device identifier from an X25519 static public key.
pub fn device_id(public_key: &[u8]) -> (r: DeviceId)
    ensures
        r.0@ == device_bytes(public_key@),
{
    let out = tagged_digest(DOMAIN_ID, public_key);
    DeviceId(head8(out.as_slice()))
}

/// Two bytes as four uppercase hexadecimal digits.
pub open spec fn fingerprint_group(a: u8, b: u8) -> Seq<char> {
    seq![
        text::upper(codec::hex_digit(a as int / 16)),
        text::upper(codec::hex_digit(a as int % 16)),
        text::upper(codec::hex_digit(b as int / 16)),
        text::upper(codec::hex_digit(b as int % 16)),
    ]
}

/// The first `n` groups of a digest, with spaces in between.
pub open spec fn fingerprint_groups(d: Seq<u8>, n: nat) -> Seq<char>
    decreases n,
{
    if n == 0 {
        Seq::empty()
    } else if n == 1 {
        fingerprint_group(d[0], d[1])
    } else {
        fingerprint_groups(d, (n - 1) as nat).push(' ') + fingerprint_group(
            d[2 * n - 2],
            d[2 * n - 1],
        )
    }
}

/// The fingerprint of a public key.
pub open spec fn fingerprint_text(public_key: Seq<u8>) -> Seq<char> {
    fingerprint_groups(tagged(DOMAIN_FP@, public_key), 8)
}

fn upper_hex(n: u8) -> (c: char)
    requires
        n < 16,
    ensures
        c == text::upper(codec::hex_digit(n as int)),
{
    if n < 10 {
        (48u8 + n) as char
    } else {
        (55u8 + n) as char
    }
}

/// Key fingerprint shown during pairing and in device details.
///
/// 128 bits rendered as eight uppercase hex groups, e.g.
/// `3F2A 91C0 4D18 BB27 0E55 A3F9 6C14 D082`.
pub fn fingerprint(public_key: &[u8]) -> (r: String)
    ensures
        r@ == fingerprint_text(public_key@),
{
    let d = tagged_digest(DOMAIN_FP, public_key);
    let mut r = String::new();
    let mut i: usize = 0;
    while i < 8
        invariant
            i <= 8,
            d@.len() == 32,
            r@ == fingerprint_groups(d@, i as nat),
        decreases 8 - i,
    {
        if i > 0 {
            r.push(' ');
        }
        let a: u8 = d[2 * i];
        let b: u8 = d[2 * i + 1];
        r.push(upper_hex(a / 16));
        r.push(upper_hex(a % 16));
        r.push(upper_hex(b / 16));
        r.push(upper_hex(b % 16));
        proof {
            assert(r@ =~= fingerprint_groups(d@, i as nat + 1));
        }
        i = i + 1;
    }
    r
}

/// The eight decimal digits of a session, in two groups of four.
pub open spec fn sas_text(handshake_hash: Seq<u8>) -> Seq<char> {
    let v = bytes::be_value(tagged(DOMAIN_SAS@, handshake_hash).take(8)) % 100_000_000;
    text::padded(v / 10_000, 4).push(' ') + text::padded(v % 10_000, 4)
}

/// Short authentication string binding *this* session.
///
/// Computed from the Noise handshake hash, which commits to both static keys,
/// both ephemeral keys and the prologue. Two different sessions (as a
/// machine-in-the-middle must run) therefore produce different codes with
/// overwhelming probability, so comparing the code out of band detects the
/// attack. 8 decimal digits leave an online attacker a 1-in-10^8 chance per
/// pairing attempt, and pairing attempts are rate limited and user-visible.
pub fn sas_code(handshake_hash: &[u8]) -> (r: String)
    ensures
        r@ == sas_text(handshake_hash@),
{
    let d = tagged_digest(DOMAIN_SAS, handshake_hash);
    proof {
        assert(d@.subrange(0, 8) =~= d@.take(8));
    }
    let v: u64 = bytes::read_be(d.as_slice(), 0, 8) % 100_000_000;
    let mut r = text::padded_text(v / 10_000, 4);
    r.push(' ');
    r.append(text::padded_text(v % 10_000, 4).as_str());
    r
}

/// Constant-time comparison of two public keys.
///
/// Key comparison happens on every connection; using `==` would leak the
/// position of the first differing byte through timing.
pub fn keys_equal(a: &[u8], b: &[u8]) -> (r: bool)
    ensures
        r == (a@ == b@),
{
    if a.len() != b.len() {
        return false;
    }
    crypto::constant_time_eq(a, b)
}

/// An identifier is read back from its text.
pub proof fn law_device_id_round_trip(id: DeviceId, other: DeviceId)
    requires
        text::lower_all(codec::hex(id.0@)) == codec::hex(other.0@),
    ensures
        other == id,
{
    codec::lemma_hex_is_lower(id.0@);
    codec::lemma_hex_injective(id.0@, other.0@);
    assert(id.0 =~= other.0);
}

/// A fingerprint is 39 characters long: eight groups of four digits and the
/// seven spaces between them.
pub proof fn law_fingerprint_format(public_key: Seq<u8>)
    ensures
        fingerprint_text(public_key).len() == 39,
        forall|i: int|
            0 <= i < 39 ==> (#[trigger] fingerprint_text(public_key)[i] == ' ' <==> i % 5 == 4),
{
    lemma_groups_format(tagged(DOMAIN_FP@, public_key), 8);
}

proof fn lemma_groups_format(d: Seq<u8>, n: nat)
    requires
        n >= 1,
    ensures
        fingerprint_groups(d, n).len() == 5 * n - 1,
        forall|i: int|
            0 <= i < 5 * n - 1 ==> (#[trigger] fingerprint_groups(d, n)[i] == ' ' <==> i % 5 == 4),
    decreases n,
{
    if n > 1 {
        let p = fingerprint_groups(d, (n - 1) as nat);
        lemma_groups_format(d, (n - 1) as nat);
        let g = fingerprint_group(d[2 * n - 2], d[2 * n - 1]);
        let s = fingerprint_groups(d, n);
        assert forall|i: int| 0 <= i < 5 * n - 1 implies (#[trigger] s[i] == ' ' <==> i % 5
            == 4) by {
            if i < 5 * n - 6 {
                assert(s[i] == p[i]);
            } else if i > 5 * n - 6 {
                assert(s[i] == g[i - (5 * n - 5)]);
            }
        }
    }
}

/// A session code is nine characters long: four digits, a space, four digits.
pub proof fn law_sas_format(handshake_hash: Seq<u8>)
    ensures
        sas_text(handshake_hash).len() == 9,
        forall|i: int|
            0 <= i < 9 ==> if i == 4 {
                #[trigger] sas_text(handshake_hash)[i] == ' '
            } else {
                '0' <= sas_text(handshake_hash)[i] <= '9'
            },
{
    let v = bytes::be_value(tagged(DOMAIN_SAS@, handshake_hash).take(8)) % 100_000_000;
    let a = text::padded(v / 10_000, 4);
    let b = text::padded(v % 10_000, 4);
    text::lemma_padded_len(v / 10_000, 4);
    text::lemma_padded_len(v % 10_000, 4);
    text::lemma_padded_digits(v / 10_000, 4);
    text::lemma_padded_digits(v % 10_000, 4);
    let s = sas_text(handshake_hash);
    assert forall|i: int| 0 <= i < 9 implies if i == 4 {
        #[trigger] s[i] == ' '
    } else {
        '0' <= s[i] <= '9'
    } by {
        if i < 4 {
            assert(s[i] == a[i]);
        } else if i > 4 {
            assert(s[i] == b[i - 5]);
        }
    }
}

/// The three values never hash the same bytes, whatever they are made from.
pub proof fn law_domains_are_separate(a: Seq<u8>, b: Seq<u8>)
    ensures
        encode_utf8(DOMAIN_ID@) + a != encode_utf8(DOMAIN_FP@) + b,
        encode_utf8(DOMAIN_ID@) + a != encode_utf8(DOMAIN_SAS@) + b,
        encode_utf8(DOMAIN_FP@) + a != encode_utf8(DOMAIN_SAS@) + b,
{
    reveal_strlit("SyncMob/1 device-id");
    reveal_strlit("SyncMob/1 fingerprint");
    reveal_strlit("SyncMob/1 sas");
    is_ascii_chars_encode_utf8(DOMAIN_ID@);
    is_ascii_chars_encode_utf8(DOMAIN_FP@);
    is_ascii_chars_encode_utf8(DOMAIN_SAS@);
    assert((encode_utf8(DOMAIN_ID@) + a)[10] == 'd' as u8);
    assert((encode_utf8(DOMAIN_FP@) + a)[10] == 'f' as u8);
    assert((encode_utf8(DOMAIN_FP@) + b)[10] == 'f' as u8);
    assert((encode_utf8(DOMAIN_SAS@) + b)[10] == 's' as u8);
}

} // verus!
