//! The Noise protocol: key pairs, handshakes and encrypted transport, all from
//! the crate `snow`.
//!
//! What the states of `snow` hold has names here: how a handshake was set up,
//! which messages have passed, and under which keys and counters a transport
//! encrypts and decrypts. A handshake draws an ephemeral key at random, so which
//! bytes its messages hold, and whether drawing succeeds, is left unsaid.

use vstd::prelude::*;

verus! {

#[verifier::external_type_specification]
#[verifier::external_body]
pub struct ExNoiseParams(snow::params::NoiseParams);

#[verifier::external_type_specification]
#[verifier::external_body]
pub struct ExHandshakeState(snow::HandshakeState);

#[verifier::external_type_specification]
#[verifier::external_body]
pub struct ExTransportState(snow::TransportState);

#[verifier::external_type_specification]
#[verifier::external_body]
pub struct ExNoiseError(snow::Error);

/// Longest message of the Noise protocol, tag included.
pub const MAX_MESSAGE: usize = 65535;

/// Length of the tag that ends every encrypted message.
pub const TAG_LEN: usize = 16;

/// The protocol that parameters choose, by its name.
pub uninterp spec fn protocol_of(p: snow::params::NoiseParams) -> Seq<char>;

/// How a handshake was set up: its protocol, whether this side initiates it,
/// the private key of this side, and the prologue.
pub uninterp spec fn handshake_setup(h: snow::HandshakeState) -> (
    Seq<char>,
    bool,
    Seq<u8>,
    Seq<u8>,
);

/// The messages that have passed in a handshake, in either direction.
pub uninterp spec fn handshake_messages(h: snow::HandshakeState) -> Seq<Seq<u8>>;

/// Nothing that was handed to a handshake was refused. After a refusal `snow`
/// does not take back all that it did, so such a handshake may not go on.
pub uninterp spec fn unbroken(h: snow::HandshakeState) -> bool;

/// Whether a handshake takes a message as the next one, given the room for its
/// payload.
pub uninterp spec fn handshake_reads(h: snow::HandshakeState, message: Seq<u8>, room: int) -> bool;

/// The key that the peer has proved in a handshake, if any.
pub uninterp spec fn proved_key(h: snow::HandshakeState) -> Option<Seq<u8>>;

/// The hash of a handshake: it covers the protocol, the prologue and the
/// messages.
pub uninterp spec fn noise_hash(
    protocol: Seq<char>,
    prologue: Seq<u8>,
    messages: Seq<Seq<u8>>,
) -> Seq<u8>;

/// The keys that a handshake ends in: that of the initiator and that of the
/// responder.
pub uninterp spec fn session_keys(h: snow::HandshakeState) -> (Seq<u8>, Seq<u8>);

/// What a transport works with: its protocol, the key that it encrypts with and
/// the one that it decrypts with.
pub uninterp spec fn transport_setup(t: snow::TransportState) -> (Seq<char>, Seq<u8>, Seq<u8>);

/// How many messages a transport has encrypted and how many decrypted.
pub uninterp spec fn transport_counts(t: snow::TransportState) -> (u64, u64);

/// The `n`-th message under a key of a protocol.
pub uninterp spec fn noise_seal(
    protocol: Seq<char>,
    key: Seq<u8>,
    n: u64,
    plaintext: Seq<u8>,
) -> Seq<u8>;

/// What the `n`-th message under a key of a protocol says; `None` where its tag
/// does not fit.
pub uninterp spec fn noise_open(
    protocol: Seq<char>,
    key: Seq<u8>,
    n: u64,
    message: Seq<u8>,
) -> Option<Seq<u8>>;

/// The X25519 public key of a private key.
pub uninterp spec fn x25519_public(private_key: Seq<u8>) -> Seq<u8>;

/// The protocol that is used here: three messages, X25519, ChaCha20-Poly1305
/// and BLAKE2s.
pub open spec fn is_xx(protocol: Seq<char>) -> bool {
    protocol == "Noise_XX_25519_ChaChaPoly_BLAKE2s"@
}

/// The two ends of one handshake as far as it has come: they take the two roles
/// in the protocol of [`is_xx`], with one prologue, and the same messages have
/// passed through both.
pub open spec fn are_aligned(a: snow::HandshakeState, b: snow::HandshakeState) -> bool {
    &&& is_xx(handshake_setup(a).0)
    &&& is_xx(handshake_setup(b).0)
    &&& handshake_setup(a).1 != handshake_setup(b).1
    &&& handshake_setup(a).3 == handshake_setup(b).3
    &&& handshake_messages(a) == handshake_messages(b)
    &&& unbroken(a)
    &&& unbroken(b)
}

/// The two ends of one handshake through which all three messages have passed.
pub open spec fn are_peers(a: snow::HandshakeState, b: snow::HandshakeState) -> bool {
    are_aligned(a, b) && handshake_messages(a).len() == 3
}

/// How much longer than its payload the next message is after `n` messages have
/// passed: the first holds a key, the second a key, an encrypted key and two
/// tags, the third an encrypted key and two tags.
pub open spec fn overhead(n: int) -> int {
    if n == 0 {
        32
    } else if n == 1 {
        96
    } else {
        64
    }
}

/// `str::parse` into `snow::params::NoiseParams`. Which names it knows is not
/// stated, beyond that it reads the one of [`is_xx`].
#[verifier::external_body]
pub(crate) fn parse_params(name: &str) -> (r: Result<snow::params::NoiseParams, snow::Error>)
    ensures
        is_xx(name@) ==> r is Ok,
        r matches Ok(p) ==> (is_xx(name@) ==> protocol_of(p) == name@),
{
    name.parse()
}

/// `snow::Builder::generate_keypair`: a private and a public key, both fresh
/// from the system's random numbers. With X25519 either is 32 bytes long, and
/// the public key is that of the private key.
#[verifier::external_body]
pub(crate) fn generate_keypair(name: &str) -> (r: Result<(Vec<u8>, Vec<u8>), snow::Error>)
    ensures
        is_xx(name@) ==> (r matches Ok(pair) ==> pair.0@.len() == 32 && pair.1@.len() == 32
            && pair.1@ == x25519_public(pair.0@)),
{
    let pair = snow::Builder::new(name.parse()?).generate_keypair()?;
    Ok((pair.private, pair.public))
}

/// `snow::Builder::build_initiator` with a private key and a prologue: a
/// handshake set up like this, in which no message has passed.
#[verifier::external_body]
pub(crate) fn build_initiator(
    params: snow::params::NoiseParams,
    private_key: &[u8],
    prologue: &[u8],
) -> (r: Result<snow::HandshakeState, snow::Error>)
    requires
        private_key@.len() == 32,
    ensures
        is_xx(protocol_of(params)) ==> r is Ok,
        r matches Ok(h) ==> handshake_setup(h) == (
            protocol_of(params),
            true,
            private_key@,
            prologue@,
        ) && handshake_messages(h).len() == 0 && unbroken(h),
{
    snow::Builder::new(params).local_private_key(private_key)?.prologue(prologue)?.build_initiator()
}

/// `snow::Builder::build_responder` with a private key and a prologue: a
/// handshake set up like this, in which no message has passed.
#[verifier::external_body]
pub(crate) fn build_responder(
    params: snow::params::NoiseParams,
    private_key: &[u8],
    prologue: &[u8],
) -> (r: Result<snow::HandshakeState, snow::Error>)
    requires
        private_key@.len() == 32,
    ensures
        is_xx(protocol_of(params)) ==> r is Ok,
        r matches Ok(h) ==> handshake_setup(h) == (
            protocol_of(params),
            false,
            private_key@,
            prologue@,
        ) && handshake_messages(h).len() == 0 && unbroken(h),
{
    snow::Builder::new(params).local_private_key(private_key)?.prologue(prologue)?.build_responder()
}

/// `snow::HandshakeState::write_message`: the next handshake message, which
/// carries the payload and has passed then. On failure none has. The other end
/// takes the message if it has room for the payload. The first two messages hold
/// a fresh key, and whether one can be drawn is left open; the third draws
/// nothing, so it succeeds if there is room for it and nothing was refused before.
#[verifier::external_body]
pub(crate) fn write_handshake(
    hs: &mut snow::HandshakeState,
    payload: &[u8],
    room: usize,
) -> (r: Result<Vec<u8>, snow::Error>)
    requires
        256 <= room <= MAX_MESSAGE,
    ensures
        handshake_setup(*final(hs)) == handshake_setup(*old(hs)),
        match r {
            Ok(m) => m@.len() <= room && handshake_messages(*final(hs)) == handshake_messages(
                *old(hs),
            ).push(m@) && (unbroken(*old(hs)) ==> unbroken(*final(hs))),
            Err(_) => handshake_messages(*final(hs)) == handshake_messages(*old(hs)),
        },
        r matches Ok(m) ==> (is_xx(handshake_setup(*old(hs)).0) ==> m@.len() == payload@.len()
            + overhead(handshake_messages(*old(hs)).len() as int)),
        r matches Ok(m) ==> forall|other: snow::HandshakeState, k: int|
            are_aligned(*old(hs), other) && payload@.len() <= k <= MAX_MESSAGE
                ==> #[trigger] handshake_reads(other, m@, k),
        is_xx(handshake_setup(*old(hs)).0) && handshake_setup(*old(hs)).1 && unbroken(*old(hs))
            && handshake_messages(*old(hs)).len() == 2 && payload@.len() + overhead(2) <= room ==> r is Ok,
{
    let mut buf = vec![0u8; room];
    let n = hs.write_message(payload, &mut buf)?;
    buf.truncate(n);
    Ok(buf)
}

/// `snow::HandshakeState::read_message`: the payload of a handshake message, at
/// most `room` bytes long. The message has passed then; on failure it has not.
/// Which messages are taken is left to its name: it depends on the state and the
/// message alone.
#[verifier::external_body]
pub(crate) fn read_handshake(
    hs: &mut snow::HandshakeState,
    message: &[u8],
    room: usize,
) -> (r: Result<Vec<u8>, snow::Error>)
    requires
        room <= MAX_MESSAGE,
    ensures
        handshake_setup(*final(hs)) == handshake_setup(*old(hs)),
        match r {
            Ok(p) => p@.len() <= room && handshake_messages(*final(hs)) == handshake_messages(
                *old(hs),
            ).push(message@) && (unbroken(*old(hs)) ==> unbroken(*final(hs))),
            Err(_) => handshake_messages(*final(hs)) == handshake_messages(*old(hs)),
        },
        r is Ok <==> handshake_reads(*old(hs), message@, room as int),
{
    let mut buf = vec![0u8; room];
    let n = hs.read_message(message, &mut buf)?;
    buf.truncate(n);
    Ok(buf)
}

/// `snow::HandshakeState::get_remote_static`: the key that the peer has proved
/// so far, if any. Once the three messages have passed there is one. It is the
/// public key of whoever stands at the other end.
#[verifier::external_body]
pub(crate) fn remote_static(hs: &snow::HandshakeState) -> (r: Option<Vec<u8>>)
    ensures
        match r {
            Some(k) => proved_key(*hs) == Some(k@),
            None => proved_key(*hs) is None,
        },
        is_xx(handshake_setup(*hs).0) && handshake_messages(*hs).len() == 3 ==> r is Some,
        r matches Some(k) ==> (is_xx(handshake_setup(*hs).0) ==> k@.len() == 32),
        r matches Some(k) ==> forall|other: snow::HandshakeState| #[trigger]
            are_peers(*hs, other) ==> k@ == x25519_public(handshake_setup(other).2),
{
    hs.get_remote_static().map(|k| k.to_vec())
}

/// `snow::HandshakeState::get_handshake_hash`: the hash of what has passed. All
/// that goes into it is on the wire.
#[verifier::external_body]
pub(crate) fn handshake_hash(hs: &snow::HandshakeState) -> (r: Vec<u8>)
    ensures
        is_xx(handshake_setup(*hs).0) ==> r@ == noise_hash(
            handshake_setup(*hs).0,
            handshake_setup(*hs).3,
            handshake_messages(*hs),
        ) && r@.len() == 32,
{
    hs.get_handshake_hash().to_vec()
}

/// `snow::HandshakeState::into_transport_mode`: a transport with the keys that
/// the handshake ended in, each side encrypting with its own. It is there once
/// the three messages have passed, and not before. Both ends of a handshake end
/// in the same keys: what goes into them besides the messages is the outcome of
/// Diffie-Hellman exchanges, which the ends share.
#[verifier::external_body]
pub(crate) fn into_transport(hs: snow::HandshakeState) -> (r: Result<
    snow::TransportState,
    snow::Error,
>)
    ensures
        is_xx(handshake_setup(hs).0) ==> (r is Ok <==> handshake_messages(hs).len() == 3),
        r matches Ok(_) ==> forall|other: snow::HandshakeState| #[trigger]
            are_peers(hs, other) ==> session_keys(other) == session_keys(hs),
        r matches Ok(t) ==> transport_counts(t) == (0u64, 0u64) && transport_setup(t) == if
            handshake_setup(hs).1 {
            (handshake_setup(hs).0, session_keys(hs).0, session_keys(hs).1)
        } else {
            (handshake_setup(hs).0, session_keys(hs).1, session_keys(hs).0)
        },
{
    hs.into_transport_mode()
}

/// `snow::TransportState::write_message`: the plaintext encrypted, with a tag
/// of 16 bytes behind it, which decrypts to the plaintext. What does not fit
/// into one message is refused, and so is everything once the counter is used
/// up.
#[verifier::external_body]
pub(crate) fn write_transport(noise: &mut snow::TransportState, plaintext: &[u8]) -> (r: Result<
    Vec<u8>,
    snow::Error,
>)
    requires
        plaintext@.len() + TAG_LEN <= usize::MAX,
    ensures
        transport_setup(*final(noise)) == transport_setup(*old(noise)),
        is_xx(transport_setup(*old(noise)).0) ==> (r is Ok <==> plaintext@.len() + TAG_LEN
            <= MAX_MESSAGE && transport_counts(*old(noise)).0 < u64::MAX),
        match r {
            Ok(c) => {
                let (protocol, key, _) = transport_setup(*old(noise));
                let (n, other) = transport_counts(*old(noise));
                &&& c@ == noise_seal(protocol, key, n, plaintext@)
                &&& noise_open(protocol, key, n, c@) == Some(plaintext@)
                &&& c@.len() == plaintext@.len() + TAG_LEN
                &&& c@.len() <= MAX_MESSAGE
                &&& transport_counts(*final(noise)) == ((n + 1) as u64, other)
            },
            Err(_) => transport_counts(*final(noise)) == transport_counts(*old(noise)),
        },
{
    let mut out = vec![0u8; plaintext.len() + 16];
    let n = noise.write_message(plaintext, &mut out)?;
    out.truncate(n);
    Ok(out)
}

/// `snow::TransportState::read_message`: the plaintext of an encrypted message,
/// 16 bytes shorter. Refused are what is longer than one message, what the key
/// and the counter do not open, and everything once the counter is used up.
#[verifier::external_body]
pub(crate) fn read_transport(noise: &mut snow::TransportState, message: &[u8]) -> (r: Result<
    Vec<u8>,
    snow::Error,
>)
    ensures
        transport_setup(*final(noise)) == transport_setup(*old(noise)),
        is_xx(transport_setup(*old(noise)).0) ==> (r is Ok <==> message@.len() <= MAX_MESSAGE
            && transport_counts(*old(noise)).1 < u64::MAX && noise_open(
            transport_setup(*old(noise)).0,
            transport_setup(*old(noise)).2,
            transport_counts(*old(noise)).1,
            message@,
        ) is Some),
        match r {
            Ok(p) => {
                let (protocol, _, key) = transport_setup(*old(noise));
                let (other, n) = transport_counts(*old(noise));
                &&& noise_open(protocol, key, n, message@) == Some(p@)
                &&& p@.len() + TAG_LEN == message@.len()
                &&& message@.len() <= MAX_MESSAGE
                &&& transport_counts(*final(noise)) == (other, (n + 1) as u64)
            },
            Err(_) => transport_counts(*final(noise)) == transport_counts(*old(noise)),
        },
{
    let mut out = vec![0u8; message.len()];
    let n = noise.read_message(message, &mut out)?;
    out.truncate(n);
    Ok(out)
}

/// `Display` of `snow::Error`. The words are up to the crate.
#[verifier::external_body]
pub(crate) fn error_text(e: &snow::Error) -> (r: String) {
    format!("{e}")
}

} // verus!
