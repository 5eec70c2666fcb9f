//! Noise XX handshake and the framed encrypted channel built on top of it.
//!
//! The handshake gives us three things, all of which the layers above depend
//! on:
//!
//! 1. A pair of ChaCha20-Poly1305 cipher states with forward secrecy.
//! 2. The peer's *static* public key (`remote_static`) — the identity that the
//!    trust store authorises or refuses.
//! 3. The handshake hash, which both honest parties compute identically and a
//!    machine-in-the-middle cannot match on both sides. It is the input to the
//!    short authentication string the users compare when pairing.
//!
//! The bytes go over a socket that this module does not see: it says what to
//! write next and takes what was read.

use vstd::prelude::*;
use vstd::string::*;
use vstd::utf8::*;
use crate::bytes;
use crate::noise;
use crate::proto;
use crate::proto::{Body, Message, ProtoError, MAX_FRAME, MAX_PLAINTEXT, NOISE_PARAMS, PROTOCOL_ID};
use crate::security::fingerprint;
use crate::security::keystore::Identity;
use crate::text;
use crate::util::SocketAddr;

verus! {

/// A handshake that stalls is an attacker holding a slot open; keep it short.
/// In nanoseconds.
pub const HANDSHAKE_TIMEOUT: u64 = 10_000_000_000;

/// Transport read timeout. The engine sends a keepalive every 30 s, so three
/// missed keepalives close the connection. In nanoseconds.
pub const IO_TIMEOUT: u64 = 100_000_000_000;

/// Noise XX messages are at most 96 bytes plus payload; refuse anything larger
/// before allocating.
pub const MAX_HANDSHAKE_MSG: usize = 1024;

/// Close the session well before any Noise nonce could wrap.
pub const MAX_MESSAGES: u64 = 281_474_976_710_656;

/// Shortest ciphertext: a tag and nothing else.
pub const MIN_FRAME: usize = 16;

#[derive(Debug)]
pub enum SessionError {
    Io(String),
    Noise(snow::Error),
    Proto(ProtoError),
    FrameTooLarge(usize),
    NoRemoteStatic,
    Exhausted,
    Closed,
    Params,
}

impl SessionError {
    /// The error in words; of a Noise error only the start is fixed.
    pub open spec fn is_message(&self, s: Seq<char>) -> bool {
        match self {
            SessionError::Io(why) => s == "io: "@ + why@,
            SessionError::Noise(_) => exists|why: Seq<char>| s == #[trigger] ("noise: "@ + why),
            SessionError::Proto(e) => s == "protocol: "@ + e.message(),
            SessionError::FrameTooLarge(n) => s == "frame too large: "@ + text::decimal(*n as nat),
            SessionError::NoRemoteStatic => s == "peer did not present a static key"@,
            SessionError::Exhausted => s == "session exhausted, reconnect required"@,
            SessionError::Closed => s == "channel closed"@,
            SessionError::Params => s == "bad noise parameters"@,
        }
    }

    /// See [`SessionError::is_message`].
    pub fn text(&self) -> (r: String)
        ensures
            self.is_message(r@),
    {
        match self {
            SessionError::Io(why) => {
                let mut r = "io: ".to_string();
                r.append(why.as_str());
                r
            },
            SessionError::Noise(e) => {
                let mut r = "noise: ".to_string();
                let why = noise::error_text(e);
                r.append(why.as_str());
                r
            },
            SessionError::Proto(e) => {
                let mut r = "protocol: ".to_string();
                r.append(e.text().as_str());
                r
            },
            SessionError::FrameTooLarge(n) => {
                let mut r = "frame too large: ".to_string();
                r.append(text::decimal_text(*n as u64).as_str());
                r
            },
            SessionError::NoRemoteStatic => "peer did not present a static key".to_string(),
            SessionError::Exhausted => "session exhausted, reconnect required".to_string(),
            SessionError::Closed => "channel closed".to_string(),
            SessionError::Params => "bad noise parameters".to_string(),
        }
    }
}

/// What a handshake has to do next.
#[derive(Clone, Copy, PartialEq, Eq, Debug, Structural)]
pub enum HandshakeStep {
    Write,
    Read,
    Done,
}

/// A handshake in progress.
pub struct Handshake {
    state: snow::HandshakeState,
    is_initiator: bool,
    done: u8,
}

/// Result of a completed handshake, before any trust decision has been made.
pub struct Handshaked {
    pub channel: SecureChannel,
    /// The peer's long term X25519 public key. Authenticated by Noise, but not
    /// yet *authorised* — that is the trust store's job.
    pub remote_static: Vec<u8>,
    /// Binds this exact session; used to derive the pairing code.
    pub handshake_hash: Vec<u8>,
    pub peer_addr: SocketAddr,
    pub is_initiator: bool,
}

/// The encrypted channel of a session.
///
/// Encryption and the socket write must happen under one lock, so that frames
/// reach the wire in the order their Noise nonces were assigned.
pub struct SecureChannel {
    noise: snow::TransportState,
    closed: bool,
    sent: u64,
    recvd: u64,
}

/// A message on the wire: its length in four bytes, most significant first, and
/// the message.
pub open spec fn framed(message: Seq<u8>) -> Seq<u8> {
    bytes::be_bytes(message.len(), 4) + message
}

/// See [`framed`].
pub fn frame(message: &[u8]) -> (r: Vec<u8>)
    ensures
        r@ == framed(message@),
{
    let mut r = bytes::write_be(message.len() as u64, 4);
    bytes::append_slice(&mut r, message);
    r
}

/// The length of the ciphertext that a length prefix announces, bounded
/// *before* anything is read or allocated: the prefix is attacker controlled.
pub fn frame_len(prefix: &[u8]) -> (r: Result<usize, SessionError>)
    requires
        prefix@.len() == 4,
    ensures
        match r {
            Ok(n) => n == bytes::be_value(prefix@) && MIN_FRAME <= n <= MAX_FRAME,
            Err(e) => e == SessionError::FrameTooLarge(bytes::be_value(prefix@) as usize) && !(
            MIN_FRAME <= bytes::be_value(prefix@) <= MAX_FRAME),
        },
{
    let n: usize = prefix_value(prefix);
    if n < MIN_FRAME || n > MAX_FRAME {
        return Err(SessionError::FrameTooLarge(n));
    }
    Ok(n)
}

/// The length of the handshake message that a length prefix announces.
pub fn handshake_len(prefix: &[u8]) -> (r: Result<usize, SessionError>)
    requires
        prefix@.len() == 4,
    ensures
        match r {
            Ok(n) => n == bytes::be_value(prefix@) && 0 < n <= MAX_HANDSHAKE_MSG,
            Err(e) => e == SessionError::FrameTooLarge(bytes::be_value(prefix@) as usize) && !(0
                < bytes::be_value(prefix@) <= MAX_HANDSHAKE_MSG),
        },
{
    let n: usize = prefix_value(prefix);
    if n > MAX_HANDSHAKE_MSG || n == 0 {
        return Err(SessionError::FrameTooLarge(n));
    }
    Ok(n)
}

fn prefix_value(prefix: &[u8]) -> (r: usize)
    requires
        prefix@.len() == 4,
    ensures
        r == bytes::be_value(prefix@),
{
    proof {
        assert(prefix@.subrange(0, 4) =~= prefix@);
        bytes::lemma_be_value_bound(prefix@);
        bytes::lemma_pow256_sizes();
    }
    bytes::read_be(prefix, 0, 4) as usize
}

/// What an initiator (`-> e`, `<- e,ee,s,es`, `-> s,se`) or a responder does
/// after a number of messages.
pub open spec fn step_after(is_initiator: bool, done: int) -> HandshakeStep {
    if done >= 3 {
        HandshakeStep::Done
    } else if is_initiator == (done % 2 == 0) {
        HandshakeStep::Write
    } else {
        HandshakeStep::Read
    }
}

/// The handshake of the connecting side.
pub fn handshake_initiator(identity: &Identity) -> (r: Result<Handshake, SessionError>)
    ensures
        r matches Ok(h) && h.is_fresh(identity.spec_private(), true),
{
    let params = match noise::parse_params(NOISE_PARAMS) {
        Ok(p) => p,
        Err(_) => return Err(SessionError::Params),
    };
    match noise::build_initiator(params, identity.private_key(), PROTOCOL_ID.as_bytes()) {
        Ok(state) => Ok(Handshake { state, is_initiator: true, done: 0 }),
        Err(e) => Err(SessionError::Noise(e)),
    }
}

/// The handshake of the accepting side.
pub fn handshake_responder(identity: &Identity) -> (r: Result<Handshake, SessionError>)
    ensures
        r matches Ok(h) && h.is_fresh(identity.spec_private(), false),
{
    let params = match noise::parse_params(NOISE_PARAMS) {
        Ok(p) => p,
        Err(_) => return Err(SessionError::Params),
    };
    match noise::build_responder(params, identity.private_key(), PROTOCOL_ID.as_bytes()) {
        Ok(state) => Ok(Handshake { state, is_initiator: false, done: 0 }),
        Err(e) => Err(SessionError::Noise(e)),
    }
}

impl Handshake {
    /// The state speaks this protocol, for this side, and is as far as the
    /// count says.
    pub closed spec fn wf(&self) -> bool {
        &&& noise::handshake_setup(self.state).0 == NOISE_PARAMS@
        &&& noise::handshake_setup(self.state).1 == self.is_initiator
        &&& noise::handshake_setup(self.state).3 == encode_utf8(PROTOCOL_ID@)
        &&& noise::handshake_messages(self.state).len() == self.done
        &&& self.done <= 3
    }

    pub closed spec fn spec_is_initiator(&self) -> bool {
        self.is_initiator
    }

    /// How many of the three messages have passed.
    pub open spec fn spec_done(&self) -> int {
        self.spec_messages().len() as int
    }

    /// The messages that have passed, in either direction.
    pub closed spec fn spec_messages(&self) -> Seq<Seq<u8>> {
        noise::handshake_messages(self.state)
    }

    /// The private key of this side.
    pub closed spec fn spec_private(&self) -> Seq<u8> {
        noise::handshake_setup(self.state).2
    }

    /// The key that the peer has proved, if any.
    pub closed spec fn spec_proved(&self) -> Option<Seq<u8>> {
        noise::proved_key(self.state)
    }

    /// Nothing that was handed to the handshake was refused.
    pub closed spec fn spec_unbroken(&self) -> bool {
        noise::unbroken(self.state)
    }

    /// Whether the handshake takes a message as the next one.
    pub closed spec fn reads(&self, message: Seq<u8>) -> bool {
        noise::handshake_reads(self.state, message, MAX_HANDSHAKE_MSG as int)
    }

    /// The keys that the handshake ends in: that of the initiator and that of
    /// the responder.
    pub closed spec fn spec_keys(&self) -> (Seq<u8>, Seq<u8>) {
        noise::session_keys(self.state)
    }

    /// The two ends of one handshake as far as it has come: an initiator and a
    /// responder through which the same messages have passed.
    pub open spec fn is_aligned(&self, other: &Handshake) -> bool {
        &&& self.wf()
        &&& other.wf()
        &&& self.spec_is_initiator() != other.spec_is_initiator()
        &&& self.spec_messages() == other.spec_messages()
        &&& self.spec_unbroken()
        &&& other.spec_unbroken()
    }

    /// The two ends of one handshake through which all three messages have
    /// passed.
    pub open spec fn is_peer(&self, other: &Handshake) -> bool {
        self.is_aligned(other) && self.spec_messages().len() == 3
    }

    /// A handshake in which no message has passed.
    pub open spec fn is_fresh(&self, private: Seq<u8>, is_initiator: bool) -> bool {
        &&& self.wf()
        &&& self.spec_is_initiator() == is_initiator
        &&& self.spec_private() == private
        &&& self.spec_messages().len() == 0
        &&& self.spec_unbroken()
    }

    /// The same side of the same handshake, with other messages.
    pub open spec fn goes_on(&self, next: &Handshake, messages: Seq<Seq<u8>>) -> bool {
        &&& next.wf()
        &&& next.spec_is_initiator() == self.spec_is_initiator()
        &&& next.spec_private() == self.spec_private()
        &&& next.spec_messages() == messages
    }

    /// What to do next.
    pub fn step(&self) -> (r: HandshakeStep)
        requires
            self.wf(),
        ensures
            r == step_after(self.spec_is_initiator(), self.spec_done()),
    {
        if self.done >= 3 {
            HandshakeStep::Done
        } else if self.is_initiator == (self.done % 2 == 0) {
            HandshakeStep::Write
        } else {
            HandshakeStep::Read
        }
    }

    /// The bytes to write: the next handshake message, which carries no payload,
    /// behind its length. The other end takes it. Which bytes the message holds
    /// is up to the Noise protocol; only the first two messages draw random
    /// numbers, so the third is there unless something was refused before.
    pub fn write_hs(&mut self) -> (r: Result<Vec<u8>, SessionError>)
        requires
            old(self).wf(),
            step_after(old(self).spec_is_initiator(), old(self).spec_done())
                == HandshakeStep::Write,
        ensures
            match r {
                Ok(out) => exists|m: Seq<u8>|
                    {
                        &&& out@ == #[trigger] framed(m)
                        &&& m.len() == noise::overhead(old(self).spec_done())
                        &&& old(self).goes_on(final(self), old(self).spec_messages().push(m))
                        &&& old(self).spec_unbroken() ==> final(self).spec_unbroken()
                        &&& forall|other: Handshake|
                            old(self).is_aligned(&other) ==> #[trigger] other.reads(m)
                    },
                Err(e) => e is Noise && old(self).goes_on(final(self), old(self).spec_messages()),
            },
            old(self).spec_done() == 2 && old(self).spec_unbroken() ==> r is Ok,
    {
        proof {
            assert forall|other: Handshake| #[trigger] self.is_aligned(&other) implies {
                noise::are_aligned(self.state, other.state)
            } by {}
        }
        let empty: Vec<u8> = Vec::new();
        match noise::write_handshake(&mut self.state, empty.as_slice(), MAX_HANDSHAKE_MSG) {
            Ok(m) => {
                self.done = self.done + 1;
                Ok(frame(m.as_slice()))
            },
            Err(e) => Err(SessionError::Noise(e)),
        }
    }

    /// Takes the next handshake message of the peer, if it is one; see
    /// [`Handshake::reads`].
    pub fn read_hs(&mut self, message: &[u8]) -> (r: Result<(), SessionError>)
        requires
            old(self).wf(),
            step_after(old(self).spec_is_initiator(), old(self).spec_done())
                == HandshakeStep::Read,
        ensures
            match r {
                Ok(_) => {
                    &&& old(self).goes_on(final(self), old(self).spec_messages().push(message@))
                    &&& old(self).spec_unbroken() ==> final(self).spec_unbroken()
                },
                Err(e) => e is Noise && old(self).goes_on(final(self), old(self).spec_messages()),
            },
            r is Ok <==> old(self).reads(message@),
    {
        match noise::read_handshake(&mut self.state, message, MAX_HANDSHAKE_MSG) {
            Ok(_) => {
                self.done = self.done + 1;
                Ok(())
            },
            Err(e) => Err(SessionError::Noise(e)),
        }
    }

    /// The session, once all messages have passed: the key that the peer
    /// proved, the hash of the messages, and a channel under the keys that the
    /// handshake ended in.
    pub fn finish(self, peer_addr: SocketAddr) -> (r: Result<Handshaked, SessionError>)
        requires
            self.wf(),
            step_after(self.spec_is_initiator(), self.spec_done()) == HandshakeStep::Done,
        ensures
            r matches Ok(h) && h.completes(&self) && h.peer_addr == peer_addr,
    {
        let remote_static = match noise::remote_static(&self.state) {
            Some(k) => k,
            None => return Err(SessionError::NoRemoteStatic),
        };
        proof {
            assert forall|other: Handshake| #[trigger] self.is_peer(&other) implies {
                noise::are_peers(self.state, other.state)
            } by {}
        }
        let handshake_hash = noise::handshake_hash(&self.state);
        match noise::into_transport(self.state) {
            Ok(transport) => Ok(
                Handshaked {
                    channel: SecureChannel { noise: transport, closed: false, sent: 0, recvd: 0 },
                    remote_static,
                    handshake_hash,
                    peer_addr,
                    is_initiator: self.is_initiator,
                },
            ),
            Err(e) => Err(SessionError::Noise(e)),
        }
    }
}

/// The hash of a handshake in which some messages have passed.
pub open spec fn hash_of(messages: Seq<Seq<u8>>) -> Seq<u8> {
    noise::noise_hash(NOISE_PARAMS@, encode_utf8(PROTOCOL_ID@), messages)
}

impl Handshaked {
    /// What comes out of a handshake. The other end has the proved key, and ends
    /// in the same session keys.
    pub open spec fn completes(&self, h: &Handshake) -> bool {
        &&& forall|other: Handshake| #[trigger]
            h.is_peer(&other) ==> self.remote_static@ == noise::x25519_public(other.spec_private())
                && other.spec_keys() == h.spec_keys()
        &&& h.spec_proved() == Some(self.remote_static@)
        &&& self.remote_static@.len() == 32
        &&& self.handshake_hash@ == hash_of(h.spec_messages())
        &&& self.is_initiator == h.spec_is_initiator()
        &&& self.channel.spec_fresh()
        &&& self.channel.spec_keys() == if h.spec_is_initiator() {
            h.spec_keys()
        } else {
            (h.spec_keys().1, h.spec_keys().0)
        }
    }
}

impl SecureChannel {
    /// The transport speaks this protocol.
    pub closed spec fn wf(&self) -> bool {
        noise::transport_setup(self.noise).0 == NOISE_PARAMS@
    }

    pub closed spec fn spec_closed(&self) -> bool {
        self.closed
    }

    /// How many messages were to be sent.
    pub closed spec fn spec_sent(&self) -> u64 {
        self.sent
    }

    /// How many messages were to be received.
    pub closed spec fn spec_recvd(&self) -> u64 {
        self.recvd
    }

    /// The keys of the session: the one that this side encrypts with and the
    /// one that it decrypts with.
    pub closed spec fn spec_keys(&self) -> (Seq<u8>, Seq<u8>) {
        (noise::transport_setup(self.noise).1, noise::transport_setup(self.noise).2)
    }

    /// How many messages were encrypted and how many decrypted.
    pub closed spec fn spec_counts(&self) -> (u64, u64) {
        noise::transport_counts(self.noise)
    }

    pub open spec fn spec_fresh(&self) -> bool {
        &&& self.wf()
        &&& !self.spec_closed()
        &&& self.spec_sent() == 0
        &&& self.spec_recvd() == 0
        &&& self.spec_counts() == (0u64, 0u64)
    }

    /// The bytes on the wire of the next plaintext: its ciphertext behind the
    /// length, which whoever decrypts with the same key and count reads.
    pub open spec fn puts(&self, plaintext: Seq<u8>, out: Seq<u8>) -> bool {
        let ct = noise::noise_seal(
            NOISE_PARAMS@,
            self.spec_keys().0,
            self.spec_counts().0,
            plaintext,
        );
        &&& out == framed(ct)
        &&& ct.len() == plaintext.len() + 16
        &&& noise::noise_open(NOISE_PARAMS@, self.spec_keys().0, self.spec_counts().0, ct) == Some(
            plaintext,
        )
    }

    /// What the next ciphertext says, if it is authentic.
    pub open spec fn gets(&self, ct: Seq<u8>) -> Option<Seq<u8>> {
        if ct.len() <= noise::MAX_MESSAGE && self.spec_counts().1 < u64::MAX {
            noise::noise_open(NOISE_PARAMS@, self.spec_keys().1, self.spec_counts().1, ct)
        } else {
            None
        }
    }

    /// The same channel, with other counts.
    pub open spec fn goes_on(&self, next: &SecureChannel, sent: int, encrypted: int) -> bool {
        &&& next.wf() == self.wf()
        &&& next.spec_closed() == self.spec_closed()
        &&& next.spec_keys() == self.spec_keys()
        &&& next.spec_recvd() == self.spec_recvd()
        &&& next.spec_sent() == sent
        &&& next.spec_counts() == (encrypted as u64, self.spec_counts().1)
    }

    /// The plaintext of a message that may be sent now. A closed channel, a
    /// message that does not fit and an exhausted session are refused, in this
    /// order; only the last one counts as an attempt.
    pub fn outgoing(&mut self, msg: &Message) -> (r: Result<Vec<u8>, SessionError>)
        ensures
            if old(self).spec_closed() {
                &&& r matches Err(e) && e is Closed
                &&& *final(self) == *old(self)
            } else if proto::wire(*msg).len() > MAX_PLAINTEXT {
                &&& r matches Err(SessionError::Proto(ProtoError::TooLarge(n))) && n
                    == proto::wire(*msg).len()
                &&& *final(self) == *old(self)
            } else {
                &&& old(self).goes_on(
                    final(self),
                    (old(self).spec_sent() + 1) % 0x1_0000_0000_0000_0000,
                    old(self).spec_counts().0 as int,
                )
                &&& if old(self).spec_sent() > MAX_MESSAGES {
                    r matches Err(e) && e is Exhausted
                } else {
                    r matches Ok(pt) && pt@ == proto::wire(*msg)
                }
            },
    {
        if self.closed {
            return Err(SessionError::Closed);
        }
        let pt = match msg.encode() {
            Ok(pt) => pt,
            Err(e) => return Err(SessionError::Proto(e)),
        };
        let n: u64 = self.sent;
        self.sent = self.sent.wrapping_add(1);
        if n > MAX_MESSAGES {
            return Err(SessionError::Exhausted);
        }
        Ok(pt)
    }

    /// The bytes to write for a plaintext: the ciphertext behind its length;
    /// see [`SecureChannel::puts`]. Refused once the counter is used up.
    pub fn encrypt(&mut self, plaintext: &[u8]) -> (r: Result<Vec<u8>, SessionError>)
        requires
            old(self).wf(),
            plaintext@.len() <= MAX_PLAINTEXT,
        ensures
            match r {
                Ok(out) => {
                    &&& old(self).spec_counts().0 < u64::MAX
                    &&& old(self).puts(plaintext@, out@)
                    &&& old(self).goes_on(
                        final(self),
                        old(self).spec_sent() as int,
                        old(self).spec_counts().0 + 1,
                    )
                },
                Err(e) => {
                    &&& e is Noise
                    &&& old(self).spec_counts().0 == u64::MAX
                    &&& old(self).goes_on(
                        final(self),
                        old(self).spec_sent() as int,
                        old(self).spec_counts().0 as int,
                    )
                },
            },
    {
        match noise::write_transport(&mut self.noise, plaintext) {
            Ok(ct) => Ok(frame(ct.as_slice())),
            Err(e) => Err(SessionError::Noise(e)),
        }
    }

    /// The bytes to write for a message; see [`SecureChannel::outgoing`] and
    /// [`SecureChannel::encrypt`].
    pub fn send(&mut self, msg: &Message) -> (r: Result<Vec<u8>, SessionError>)
        requires
            old(self).wf(),
        ensures
            sent(*old(self), *final(self), *msg, r),
    {
        match self.outgoing(msg) {
            Ok(pt) => self.encrypt(pt.as_slice()),
            Err(e) => Err(e),
        }
    }

    /// The plaintext of a ciphertext that was read from the peer, unless the
    /// session is exhausted or the ciphertext is not authentic; see
    /// [`SecureChannel::gets`].
    pub fn recv(&mut self, ct: &[u8]) -> (r: Result<Vec<u8>, SessionError>)
        requires
            old(self).wf(),
        ensures
            final(self).wf(),
            final(self).spec_closed() == old(self).spec_closed(),
            final(self).spec_keys() == old(self).spec_keys(),
            final(self).spec_sent() == old(self).spec_sent(),
            final(self).spec_recvd() == (old(self).spec_recvd() + 1) % 0x1_0000_0000_0000_0000,
            if old(self).spec_recvd() > MAX_MESSAGES {
                &&& r matches Err(e) && e is Exhausted
                &&& final(self).spec_counts() == old(self).spec_counts()
            } else {
                match r {
                    Ok(pt) => {
                        &&& old(self).gets(ct@) == Some(pt@)
                        &&& pt@.len() + 16 == ct@.len()
                        &&& final(self).spec_counts() == (
                            old(self).spec_counts().0,
                            (old(self).spec_counts().1 + 1) as u64,
                        )
                    },
                    Err(e) => {
                        &&& e is Noise
                        &&& old(self).gets(ct@) is None
                        &&& final(self).spec_counts() == old(self).spec_counts()
                    },
                }
            },
    {
        let n: u64 = self.recvd;
        self.recvd = self.recvd.wrapping_add(1);
        if n > MAX_MESSAGES {
            return Err(SessionError::Exhausted);
        }
        match noise::read_transport(&mut self.noise, ct) {
            Ok(pt) => Ok(pt),
            Err(e) => Err(SessionError::Noise(e)),
        }
    }

    pub fn close(&mut self)
        ensures
            final(self).spec_closed(),
            final(self).wf() == old(self).wf(),
            final(self).spec_keys() == old(self).spec_keys(),
            final(self).spec_counts() == old(self).spec_counts(),
            final(self).spec_sent() == old(self).spec_sent(),
            final(self).spec_recvd() == old(self).spec_recvd(),
    {
        self.closed = true;
    }

    pub fn is_closed(&self) -> (r: bool)
        ensures
            r == self.spec_closed(),
    {
        self.closed
    }
}

/// See [`SecureChannel::send`].
pub open spec fn sent(
    pre: SecureChannel,
    post: SecureChannel,
    msg: Message,
    r: Result<Vec<u8>, SessionError>,
) -> bool {
    let n = (pre.spec_sent() + 1) % 0x1_0000_0000_0000_0000;
    let c = pre.spec_counts().0;
    if pre.spec_closed() {
        &&& r matches Err(e) && e is Closed
        &&& post == pre
    } else if proto::wire(msg).len() > MAX_PLAINTEXT {
        &&& r matches Err(SessionError::Proto(ProtoError::TooLarge(len))) && len == proto::wire(
            msg,
        ).len()
        &&& post == pre
    } else if pre.spec_sent() > MAX_MESSAGES {
        &&& r matches Err(e) && e is Exhausted
        &&& pre.goes_on(&post, n, c as int)
    } else {
        match r {
            Ok(out) => {
                &&& c < u64::MAX
                &&& pre.puts(proto::wire(msg), out@)
                &&& pre.goes_on(&post, n, c + 1)
            },
            Err(e) => e is Noise && c == u64::MAX && pre.goes_on(&post, n, c as int),
        }
    }
}

/// The message that a received plaintext holds; see [`Message::decode`].
pub fn received(plaintext: &[u8], parsed: Result<Body, String>) -> (r: Result<
    Message,
    SessionError,
>)
    requires
        proto::frame_shape(plaintext@) matches Some(shape) ==> (parsed matches Ok(b) ==> b.shape()
            == shape),
    ensures
        match r {
            Ok(m) => proto::decodes_to(plaintext@, parsed, Ok(m)),
            Err(e) => e matches SessionError::Proto(p) && proto::decodes_to(
                plaintext@,
                parsed,
                Err(p),
            ),
        },
{
    match Message::decode(plaintext, parsed) {
        Ok(m) => Ok(m),
        Err(e) => Err(SessionError::Proto(e)),
    }
}

/// The prefix of a frame announces the length of what follows, which is read
/// back whole.
pub proof fn law_frame_round_trip(message: Seq<u8>)
    requires
        message.len() < 0x1_0000_0000,
    ensures
        framed(message).len() == message.len() + 4,
        bytes::be_value(framed(message).take(4)) == message.len(),
        framed(message).skip(4) == message,
{
    bytes::lemma_be_bytes_len(message.len(), 4);
    bytes::lemma_pow256_sizes();
    bytes::lemma_be_value_of_bytes(message.len(), 4);
    assert(framed(message).take(4) =~= bytes::be_bytes(message.len(), 4));
    assert(framed(message).skip(4) =~= message);
}

/// Whatever is encoded fits into one frame that the receiver accepts.
pub proof fn law_encoded_messages_fit(msg: Message)
    requires
        proto::wire(msg).len() <= MAX_PLAINTEXT,
    ensures
        MIN_FRAME <= proto::wire(msg).len() + 16 <= MAX_FRAME,
{
}

/// An initiator writes exactly when a responder reads, and both are done after
/// three messages.
pub proof fn law_handshake_sides_agree(done: int)
    requires
        0 <= done <= 3,
    ensures
        step_after(true, done) == HandshakeStep::Write <==> step_after(false, done)
            == HandshakeStep::Read,
        step_after(true, done) == HandshakeStep::Read <==> step_after(false, done)
            == HandshakeStep::Write,
        step_after(true, done) == HandshakeStep::Done <==> done == 3,
        step_after(false, done) == HandshakeStep::Done <==> done == 3,
{
}

/// Once one end of a handshake has written a message and the other one has taken
/// it, they are the two ends of the same handshake still; so the next message is
/// taken too, until all three have passed.
pub proof fn law_ends_stay_aligned(
    a: Handshake,
    a_next: Handshake,
    b: Handshake,
    b_next: Handshake,
    message: Seq<u8>,
)
    requires
        a.is_aligned(&b),
        a.goes_on(&a_next, a.spec_messages().push(message)),
        b.goes_on(&b_next, b.spec_messages().push(message)),
        a_next.spec_unbroken(),
        b_next.spec_unbroken(),
    ensures
        a_next.is_aligned(&b_next),
        a_next.spec_done() == 3 ==> a_next.is_peer(&b_next),
{
}

/// Two parties between which the same messages have passed hold the same hash,
/// so both users see the same pairing code.
pub proof fn law_both_sides_see_one_code(
    a: Handshake,
    b: Handshake,
    x: Handshaked,
    y: Handshaked,
)
    requires
        x.completes(&a),
        y.completes(&b),
        a.spec_messages() == b.spec_messages(),
    ensures
        x.handshake_hash@ == y.handshake_hash@,
        fingerprint::sas_text(x.handshake_hash@) == fingerprint::sas_text(y.handshake_hash@),
{
}

/// The two ends of a handshake know each other: each holds the public key of
/// the other one, and what one of them encrypts with, the other one decrypts
/// with.
pub proof fn law_both_sides_share_the_session(
    a: Handshake,
    b: Handshake,
    x: Handshaked,
    y: Handshaked,
)
    requires
        x.completes(&a),
        y.completes(&b),
        a.is_peer(&b),
    ensures
        x.remote_static@ == noise::x25519_public(b.spec_private()),
        y.remote_static@ == noise::x25519_public(a.spec_private()),
        x.channel.spec_keys().0 == y.channel.spec_keys().1,
        x.channel.spec_keys().1 == y.channel.spec_keys().0,
        x.channel.spec_counts().0 == y.channel.spec_counts().1,
        x.channel.spec_counts().1 == y.channel.spec_counts().0,
{
    assert(b.is_peer(&a));
}

/// What one party sends is what the other one reads, if they share the session
/// and as many messages were encrypted on one side as were decrypted on the
/// other: the frame carries the bytes of the message, whole. Then the same
/// holds of the next message.
pub proof fn law_messages_survive_the_wire(
    a: SecureChannel,
    a_next: SecureChannel,
    b: SecureChannel,
    msg: Message,
    out: Vec<u8>,
)
    requires
        sent(a, a_next, msg, Ok(out)),
        a.spec_keys().0 == b.spec_keys().1,
        a.spec_counts().0 == b.spec_counts().1,
    ensures
        bytes::be_value(out@.take(4)) == out@.len() - 4,
        MIN_FRAME <= out@.len() - 4 <= MAX_FRAME,
        b.gets(out@.skip(4)) == Some(proto::wire(msg)),
        a_next.spec_keys() == a.spec_keys(),
        a_next.spec_counts().0 == b.spec_counts().1 + 1,
{
    let ct = noise::noise_seal(
        NOISE_PARAMS@,
        a.spec_keys().0,
        a.spec_counts().0,
        proto::wire(msg),
    );
    law_frame_round_trip(ct);
}

} // verus!
