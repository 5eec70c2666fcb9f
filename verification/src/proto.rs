//! SyncMob wire protocol, version 1.
//!
//! Framing (inside the Noise transport):
//! ```text
//!   u32be  ciphertext_len   (<= 65535, Noise message limit)
//!   bytes  ciphertext       (ChaCha20-Poly1305, 16 byte tag included)
//! ```
//! Decrypted plaintext:
//! ```text
//!   u8     message type
//!   bytes  payload  (JSON for control messages, binary for FILE_CHUNK)
//! ```

pub mod laws;
pub mod ty;

use vstd::prelude::*;
use vstd::string::*;
use vstd::utf8::*;
use crate::bytes;
use crate::codec;
use crate::crypto;
use crate::text;

verus! {

/// Human readable protocol identifier, also used as the Noise prologue so that
/// a handshake cannot be transplanted to another protocol version.
pub const PROTOCOL_ID: &'static str = "SyncMob/1";

/// Noise pattern: mutual authentication with identity hiding for the initiator
/// and forward secrecy for everything after the first message.
pub const NOISE_PARAMS: &'static str = "Noise_XX_25519_ChaChaPoly_BLAKE2s";

pub const DISCOVERY_PORT: u16 = 45820;

pub const DEFAULT_TCP_PORT: u16 = 45821;

/// 239.255.79.20
pub const MULTICAST_GROUP: u32 = 0xefff_4f14;

/// Noise caps a single transport message at 65535 bytes.
pub const MAX_FRAME: usize = 65535;

/// ...of which 16 bytes are the Poly1305 tag.
pub const MAX_PLAINTEXT: usize = 65519;

/// Payload bytes carried by one FILE_CHUNK.
pub const CHUNK_SIZE: usize = 32768;

/// Control messages are tiny; anything larger is malformed or hostile.
pub const MAX_CONTROL_JSON: usize = 16384;

/// Hard ceiling on an advertised file size (1 TiB), independent of user config.
pub const MAX_FILE_SIZE: u64 = 1_099_511_627_776;

/// Longest text message we accept.
pub const MAX_TEXT_CHARS: usize = 4096;

/// Longest device name we accept from the wire.
pub const MAX_NAME_CHARS: usize = 64;

/// Longest (unsanitised) file name we accept from the wire.
pub const MAX_FILENAME_CHARS: usize = 255;

pub const BEACON_MAGIC: &'static str = "SYNCMOB";

/// Beacons are tiny; refuse to even parse anything bigger.
pub const MAX_BEACON_BYTES: usize = 512;

#[derive(Debug, Clone)]
pub enum ProtoError {
    Empty,
    UnknownType(u8),
    TooLarge(usize),
    Malformed(&'static str),
    Json(String),
}

impl ProtoError {
    pub open spec fn message(&self) -> Seq<char> {
        match self {
            ProtoError::Empty => "empty frame"@,
            ProtoError::UnknownType(t) => "unknown message type 0x"@ + codec::hex(seq![*t]),
            ProtoError::TooLarge(n) => "frame too large: "@ + text::decimal(*n as nat) + " bytes"@,
            ProtoError::Malformed(what) => "malformed "@ + what@,
            ProtoError::Json(why) => "json: "@ + why@,
        }
    }

    /// The error in words.
    pub fn text(&self) -> (r: String)
        ensures
            r@ == self.message(),
    {
        match self {
            ProtoError::Empty => "empty frame".to_string(),
            ProtoError::UnknownType(t) => {
                let mut r = "unknown message type 0x".to_string();
                let mut b: Vec<u8> = Vec::new();
                b.push(*t);
                proof {
                    assert(b@ =~= seq![*t]);
                }
                r.append(codec::hex_encode(b.as_slice()).as_str());
                r
            },
            ProtoError::TooLarge(n) => {
                let mut r = "frame too large: ".to_string();
                r.append(text::decimal_text(*n as u64).as_str());
                r.append(" bytes");
                r
            },
            ProtoError::Malformed(what) => {
                let mut r = "malformed ".to_string();
                r.append(*what);
                r
            },
            ProtoError::Json(why) => {
                let mut r = "json: ".to_string();
                r.append(why.as_str());
                r
            },
        }
    }
}

/// 128-bit random transfer identifier, written as lowercase hex.
#[derive(Clone, Copy, PartialEq, Eq, Hash, PartialOrd, Ord, Debug)]
pub struct TransferId(pub [u8; 16]);

/// Why a string is no transfer identifier.
#[derive(Debug)]
pub enum TransferIdError {
    Hex(hex::FromHexError),
    Length,
}

/// The array of the first 16 bytes of a slice.
pub fn id_from_slice(v: &[u8]) -> (r: [u8; 16])
    requires
        v@.len() >= 16,
    ensures
        r@ == v@.take(16),
{
    let mut r = [0u8; 16];
    let mut i: usize = 0;
    while i < 16
        invariant
            i <= 16 <= v@.len(),
            r@.len() == 16,
            forall|j: int| 0 <= j < i ==> r@[j] == v@[j],
        decreases 16 - i,
    {
        r[i] = v[i];
        i = i + 1;
    }
    proof {
        assert(r@ =~= v@.take(16));
    }
    r
}

impl TransferId {
    /// A random identifier.
    pub fn random() -> (r: Self)
        ensures
            r.0@.len() == 16,
    {
        let b = crypto::random_bytes(16);
        TransferId(id_from_slice(b.as_slice()))
    }

    /// The first four bytes, as lowercase hex.
    pub fn short(&self) -> (r: String)
        ensures
            r@ == codec::hex(self.0@.take(4)),
    {
        let head = bytes::slice_to_vec(self.0.as_slice(), 0, 4);
        proof {
            assert(self.0@.subrange(0, 4) =~= self.0@.take(4));
        }
        codec::hex_encode(head.as_slice())
    }

    /// All sixteen bytes, as lowercase hex.
    pub fn text(&self) -> (r: String)
        ensures
            r@ == codec::hex(self.0@),
    {
        codec::hex_encode(self.0.as_slice())
    }

    /// Reads an identifier written in hexadecimal digits of either case.
    pub fn from_hex(s: &str) -> (r: Result<Self, TransferIdError>)
        ensures
            match r {
                Ok(id) => text::lower_all(s@) == codec::hex(id.0@),
                Err(TransferIdError::Length) => exists|v: Seq<u8>|
                    v.len() != 16 && text::lower_all(s@) == #[trigger] codec::hex(v),
                Err(TransferIdError::Hex(_)) => forall|v: Seq<u8>|
                    text::lower_all(s@) != #[trigger] codec::hex(v),
            },
    {
        match codec::hex_decode(s) {
            Ok(v) => {
                if v.len() != 16 {
                    return Err(TransferIdError::Length);
                }
                let id = TransferId(id_from_slice(v.as_slice()));
                proof {
                    assert(id.0@ =~= v@);
                }
                Ok(id)
            },
            Err(e) => Err(TransferIdError::Hex(e)),
        }
    }

    /// The number that the sixteen bytes write.
    pub open spec fn spec_key(&self) -> nat {
        bytes::be_value(self.0@)
    }

    /// The number that the sixteen bytes write, by which tables find the
    /// transfer.
    pub fn key(&self) -> (r: u128)
        ensures
            r == self.spec_key(),
    {
        let hi: u64 = bytes::read_be(self.0.as_slice(), 0, 8);
        let lo: u64 = bytes::read_be(self.0.as_slice(), 8, 16);
        proof {
            let s = self.0@;
            bytes::lemma_be_value_concat(s.subrange(0, 8), s.subrange(8, 16));
            assert(s.subrange(0, 8) + s.subrange(8, 16) =~= s);
            bytes::lemma_pow256_sizes();
            bytes::lemma_be_value_bound(s);
        }
        hi as u128 * 0x1_0000_0000_0000_0000 + lo as u128
    }
}

/// Transfers never share an entry of a table: their identifiers are told apart
/// by their numbers.
pub proof fn law_transfer_keys_differ(a: TransferId, b: TransferId)
    requires
        a.spec_key() == b.spec_key(),
    ensures
        a == b,
{
    bytes::lemma_be_value_injective(a.0@, b.0@);
    assert(a.0 =~= b.0);
}

#[derive(Debug, Clone)]
pub struct Hello {
    /// Display name chosen by the remote user. Untrusted, clamp before use.
    pub name: String,
    /// Protocol version the peer speaks.
    pub version: u16,
    /// Informational only (`windows`, `android`, ...).
    pub platform: String,
}

#[derive(Debug, Clone)]
pub struct PairRequest {
    pub name: String,
    pub platform: String,
}

#[derive(Debug, Clone)]
pub struct TextMsg {
    pub id: TransferId,
    /// Sender clock, milliseconds since the Unix epoch. Display only — never
    /// used for ordering decisions that matter for security.
    pub ts: u64,
    pub text: String,
}

#[derive(Debug, Clone)]
pub struct FileOffer {
    pub id: TransferId,
    pub name: String,
    pub size: u64,
    /// Lowercase hex SHA-256 of the complete file; verified on receipt.
    pub sha256: String,
    pub mime: String,
}

#[derive(Debug, Clone)]
pub struct IdOnly {
    pub id: TransferId,
}

#[derive(Debug, Clone)]
pub struct IdReason {
    pub id: TransferId,
    pub reason: String,
}

#[derive(Debug, Clone)]
pub struct FileDone {
    pub id: TransferId,
    pub sha256: String,
}

#[derive(Debug, Clone)]
pub enum Message {
    Hello(Hello),
    Ping,
    Pong,
    PairRequest(PairRequest),
    PairAccept,
    PairReject { reason: String },
    Text(TextMsg),
    TextAck { id: TransferId },
    FileOffer(FileOffer),
    FileAccept { id: TransferId },
    FileReject(IdReason),
    FileChunk { id: TransferId, offset: u64, data: Vec<u8> },
    FileDone(FileDone),
    FileError(IdReason),
    FileCancel(IdReason),
}

/// The JSON object that a control message carries.
#[derive(Clone, Copy, PartialEq, Eq, Debug, Structural)]
pub enum Shape {
    /// `name`, `version`, `platform` (default empty)
    Hello,
    /// `name`, `platform` (default empty)
    PairRequest,
    /// `reason` (default empty)
    PairReject,
    /// `id`, `ts`, `text`
    Text,
    /// `id`
    IdOnly,
    /// `id`, `name`, `size`, `sha256`, `mime` (default empty)
    FileOffer,
    /// `id`, `reason`
    IdReason,
    /// `id`, `sha256`
    FileDone,
}

/// The values read from the JSON object of a control message.
#[derive(Debug)]
pub enum Body {
    Hello(Hello),
    PairRequest(PairRequest),
    PairReject { reason: String },
    Text(TextMsg),
    IdOnly(IdOnly),
    FileOffer(FileOffer),
    IdReason(IdReason),
    FileDone(FileDone),
}

impl Body {
    pub open spec fn shape(&self) -> Shape {
        match self {
            Body::Hello(_) => Shape::Hello,
            Body::PairRequest(_) => Shape::PairRequest,
            Body::PairReject { .. } => Shape::PairReject,
            Body::Text(_) => Shape::Text,
            Body::IdOnly(_) => Shape::IdOnly,
            Body::FileOffer(_) => Shape::FileOffer,
            Body::IdReason(_) => Shape::IdReason,
            Body::FileDone(_) => Shape::FileDone,
        }
    }

    /// What is wrong with the values, if anything is: the first bound that one
    /// of them breaks.
    pub open spec fn fault(&self) -> Option<Seq<char>> {
        match self {
            Body::Hello(h) => if h.name@.len() > MAX_NAME_CHARS {
                Some("hello name"@)
            } else {
                None
            },
            Body::PairRequest(p) => if p.name@.len() > MAX_NAME_CHARS {
                Some("pair name"@)
            } else {
                None
            },
            Body::Text(t) => if t.text@.len() > MAX_TEXT_CHARS {
                Some("text length"@)
            } else {
                None
            },
            Body::FileOffer(o) => if o.name@.len() > MAX_FILENAME_CHARS {
                Some("file name length"@)
            } else if o.size > MAX_FILE_SIZE {
                Some("file size"@)
            } else if !is_sha256(o.sha256@) {
                Some("sha256"@)
            } else {
                None
            },
            Body::FileDone(d) => if !is_sha256(d.sha256@) {
                Some("sha256"@)
            } else {
                None
            },
            _ => None,
        }
    }

    /// The message of type `t` that holds these values.
    pub open spec fn message(self, t: u8) -> Message {
        match self {
            Body::Hello(h) => Message::Hello(h),
            Body::PairRequest(p) => Message::PairRequest(p),
            Body::PairReject { reason } => Message::PairReject { reason },
            Body::Text(m) => Message::Text(m),
            Body::IdOnly(i) => if t == ty::TEXT_ACK {
                Message::TextAck { id: i.id }
            } else {
                Message::FileAccept { id: i.id }
            },
            Body::FileOffer(o) => Message::FileOffer(o),
            Body::IdReason(r) => if t == ty::FILE_REJECT {
                Message::FileReject(r)
            } else if t == ty::FILE_ERROR {
                Message::FileError(r)
            } else {
                Message::FileCancel(r)
            },
            Body::FileDone(d) => Message::FileDone(d),
        }
    }
}

/// 64 hexadecimal digits.
pub open spec fn is_sha256(s: Seq<char>) -> bool {
    s.len() == 64 && forall|i: int| 0 <= i < s.len() ==> codec::is_hex_digit(#[trigger] s[i])
}

fn check_sha256(s: &str) -> (r: bool)
    ensures
        r == is_sha256(s@),
{
    let v = text::to_chars(s);
    if v.len() != 64 {
        return false;
    }
    let mut i: usize = 0;
    while i < v.len()
        invariant
            i <= v@.len(),
            v@ == s@,
            forall|j: int| 0 <= j < i ==> codec::is_hex_digit(#[trigger] s@[j]),
        decreases v.len() - i,
    {
        let c = v[i];
        if !((c >= '0' && c <= '9') || (c >= 'a' && c <= 'f') || (c >= 'A' && c <= 'F')) {
            return false;
        }
        i = i + 1;
    }
    true
}

/// The JSON object that follows a type byte, if one does.
pub open spec fn shape_of(t: u8) -> Option<Shape> {
    if t == ty::HELLO {
        Some(Shape::Hello)
    } else if t == ty::PAIR_REQUEST {
        Some(Shape::PairRequest)
    } else if t == ty::PAIR_REJECT {
        Some(Shape::PairReject)
    } else if t == ty::TEXT {
        Some(Shape::Text)
    } else if t == ty::TEXT_ACK || t == ty::FILE_ACCEPT {
        Some(Shape::IdOnly)
    } else if t == ty::FILE_OFFER {
        Some(Shape::FileOffer)
    } else if t == ty::FILE_REJECT || t == ty::FILE_ERROR || t == ty::FILE_CANCEL {
        Some(Shape::IdReason)
    } else if t == ty::FILE_DONE {
        Some(Shape::FileDone)
    } else {
        None
    }
}

/// The JSON object that the rest of a frame must be read as, if any.
pub open spec fn frame_shape(buf: Seq<u8>) -> Option<Shape> {
    if buf.len() == 0 || buf.len() - 1 > MAX_CONTROL_JSON {
        None
    } else {
        shape_of(buf[0])
    }
}

/// What a frame means, given what its JSON object (if it carries one) was read
/// as: the message, or the first rule that the frame breaks.
pub open spec fn decodes_to(
    buf: Seq<u8>,
    parsed: Result<Body, String>,
    r: Result<Message, ProtoError>,
) -> bool {
    if buf.len() == 0 {
        r matches Err(ProtoError::Empty)
    } else if buf[0] == ty::FILE_CHUNK {
        if buf.len() - 1 < 24 {
            r matches Err(ProtoError::Malformed(what)) && what@ == "file chunk header"@
        } else if bytes::be_value(buf.subrange(17, 25)) > MAX_FILE_SIZE {
            r matches Err(ProtoError::Malformed(what)) && what@ == "chunk offset"@
        } else {
            r matches Ok(Message::FileChunk { id, offset, data }) && id.0@ == buf.subrange(1, 17)
                && offset == bytes::be_value(buf.subrange(17, 25)) && data@ == buf.skip(25)
        }
    } else if buf.len() - 1 > MAX_CONTROL_JSON {
        r matches Err(ProtoError::TooLarge(n)) && n == buf.len() - 1
    } else if shape_of(buf[0]) is Some {
        match parsed {
            Err(e) => r matches Err(ProtoError::Json(f)) && f == e,
            Ok(b) => match b.fault() {
                Some(fault) => r matches Err(ProtoError::Malformed(what)) && what@ == fault,
                None => r matches Ok(m) && m == b.message(buf[0]),
            },
        }
    } else if buf[0] == ty::PING {
        r matches Ok(Message::Ping)
    } else if buf[0] == ty::PONG {
        r matches Ok(Message::Pong)
    } else if buf[0] == ty::PAIR_ACCEPT {
        r matches Ok(Message::PairAccept)
    } else {
        r matches Err(ProtoError::UnknownType(t)) && t == buf[0]
    }
}

/// The JSON text of a control message: its fields in a fixed order, without
/// white space; nothing for a message that carries no JSON.
pub open spec fn json_text(m: Message) -> Seq<char> {
    match m {
        Message::Hello(h) => "{\"name\":"@ + codec::json_string(h.name@) + ",\"version\":"@
            + text::decimal(h.version as nat) + ",\"platform\":"@ + codec::json_string(h.platform@)
            + "}"@,
        Message::PairRequest(p) => "{\"name\":"@ + codec::json_string(p.name@) + ",\"platform\":"@
            + codec::json_string(p.platform@) + "}"@,
        Message::PairReject { reason } => "{\"reason\":"@ + codec::json_string(reason@) + "}"@,
        Message::Text(t) => id_json(t.id) + ",\"ts\":"@ + text::decimal(t.ts as nat)
            + ",\"text\":"@ + codec::json_string(t.text@) + "}"@,
        Message::TextAck { id } => id_json(id) + "}"@,
        Message::FileOffer(o) => id_json(o.id) + ",\"name\":"@ + codec::json_string(o.name@)
            + ",\"size\":"@ + text::decimal(o.size as nat) + ",\"sha256\":"@ + codec::json_string(
            o.sha256@,
        ) + ",\"mime\":"@ + codec::json_string(o.mime@) + "}"@,
        Message::FileAccept { id } => id_json(id) + "}"@,
        Message::FileReject(r) => reason_json(r),
        Message::FileError(r) => reason_json(r),
        Message::FileCancel(r) => reason_json(r),
        Message::FileDone(d) => id_json(d.id) + ",\"sha256\":"@ + codec::json_string(d.sha256@)
            + "}"@,
        _ => Seq::empty(),
    }
}

/// The start of an object whose first field is a transfer identifier.
pub open spec fn id_json(id: TransferId) -> Seq<char> {
    "{\"id\":"@ + codec::json_string(codec::hex(id.0@))
}

pub open spec fn reason_json(r: IdReason) -> Seq<char> {
    id_json(r.id) + ",\"reason\":"@ + codec::json_string(r.reason@) + "}"@
}

/// The plaintext frame of a message: its type byte and its payload.
pub open spec fn wire(m: Message) -> Seq<u8> {
    seq![m.spec_type_byte()] + match m {
        Message::FileChunk { id, offset, data } => id.0@ + bytes::be_bytes(offset as nat, 8)
            + data@,
        _ => encode_utf8(json_text(m)),
    }
}

fn id_json_text(id: TransferId) -> (r: String)
    ensures
        r@ == id_json(id),
{
    let mut r = "{\"id\":".to_string();
    r.append(codec::json_quote(id.text().as_str()).as_str());
    r
}

fn reason_json_text(v: &IdReason) -> (r: String)
    ensures
        r@ == reason_json(*v),
{
    let mut r = id_json_text(v.id);
    r.append(",\"reason\":");
    r.append(codec::json_quote(v.reason.as_str()).as_str());
    r.append("}");
    r
}

impl Message {
    pub open spec fn spec_type_byte(&self) -> u8 {
        match self {
            Message::Hello(_) => ty::HELLO,
            Message::Ping => ty::PING,
            Message::Pong => ty::PONG,
            Message::PairRequest(_) => ty::PAIR_REQUEST,
            Message::PairAccept => ty::PAIR_ACCEPT,
            Message::PairReject { .. } => ty::PAIR_REJECT,
            Message::Text(_) => ty::TEXT,
            Message::TextAck { .. } => ty::TEXT_ACK,
            Message::FileOffer(_) => ty::FILE_OFFER,
            Message::FileAccept { .. } => ty::FILE_ACCEPT,
            Message::FileReject(_) => ty::FILE_REJECT,
            Message::FileChunk { .. } => ty::FILE_CHUNK,
            Message::FileDone(_) => ty::FILE_DONE,
            Message::FileError(_) => ty::FILE_ERROR,
            Message::FileCancel(_) => ty::FILE_CANCEL,
        }
    }

    pub fn type_byte(&self) -> (r: u8)
        ensures
            r == self.spec_type_byte(),
    {
        match self {
            Message::Hello(_) => ty::HELLO,
            Message::Ping => ty::PING,
            Message::Pong => ty::PONG,
            Message::PairRequest(_) => ty::PAIR_REQUEST,
            Message::PairAccept => ty::PAIR_ACCEPT,
            Message::PairReject { .. } => ty::PAIR_REJECT,
            Message::Text(_) => ty::TEXT,
            Message::TextAck { .. } => ty::TEXT_ACK,
            Message::FileOffer(_) => ty::FILE_OFFER,
            Message::FileAccept { .. } => ty::FILE_ACCEPT,
            Message::FileReject(_) => ty::FILE_REJECT,
            Message::FileChunk { .. } => ty::FILE_CHUNK,
            Message::FileDone(_) => ty::FILE_DONE,
            Message::FileError(_) => ty::FILE_ERROR,
            Message::FileCancel(_) => ty::FILE_CANCEL,
        }
    }

    /// Messages a peer is allowed to send before it has been paired.
    ///
    /// Everything else is dropped and the connection closed, so an unpaired
    /// peer can never push a file or a message into the UI.
    pub open spec fn may_precede_pairing(&self) -> bool {
        self is Hello || self is Ping || self is Pong || self is PairRequest || self is PairAccept
            || self is PairReject
    }

    /// See [`Message::may_precede_pairing`].
    pub fn allowed_before_pairing(&self) -> (r: bool)
        ensures
            r == self.may_precede_pairing(),
    {
        match self {
            Message::Hello(_) => true,
            Message::Ping => true,
            Message::Pong => true,
            Message::PairRequest(_) => true,
            Message::PairAccept => true,
            Message::PairReject { .. } => true,
            _ => false,
        }
    }

    /// The JSON text of a control message.
    fn json(&self) -> (r: String)
        ensures
            r@ == json_text(*self),
    {
        match self {
            Message::Hello(h) => {
                let mut r = "{\"name\":".to_string();
                r.append(codec::json_quote(h.name.as_str()).as_str());
                r.append(",\"version\":");
                r.append(text::decimal_text(h.version as u64).as_str());
                r.append(",\"platform\":");
                r.append(codec::json_quote(h.platform.as_str()).as_str());
                r.append("}");
                r
            },
            Message::PairRequest(p) => {
                let mut r = "{\"name\":".to_string();
                r.append(codec::json_quote(p.name.as_str()).as_str());
                r.append(",\"platform\":");
                r.append(codec::json_quote(p.platform.as_str()).as_str());
                r.append("}");
                r
            },
            Message::PairReject { reason } => {
                let mut r = "{\"reason\":".to_string();
                r.append(codec::json_quote(reason.as_str()).as_str());
                r.append("}");
                r
            },
            Message::Text(t) => {
                let mut r = id_json_text(t.id);
                r.append(",\"ts\":");
                r.append(text::decimal_text(t.ts).as_str());
                r.append(",\"text\":");
                r.append(codec::json_quote(t.text.as_str()).as_str());
                r.append("}");
                r
            },
            Message::TextAck { id } => {
                let mut r = id_json_text(*id);
                r.append("}");
                r
            },
            Message::FileOffer(o) => {
                let mut r = id_json_text(o.id);
                r.append(",\"name\":");
                r.append(codec::json_quote(o.name.as_str()).as_str());
                r.append(",\"size\":");
                r.append(text::decimal_text(o.size).as_str());
                r.append(",\"sha256\":");
                r.append(codec::json_quote(o.sha256.as_str()).as_str());
                r.append(",\"mime\":");
                r.append(codec::json_quote(o.mime.as_str()).as_str());
                r.append("}");
                r
            },
            Message::FileAccept { id } => {
                let mut r = id_json_text(*id);
                r.append("}");
                r
            },
            Message::FileReject(v) => reason_json_text(v),
            Message::FileError(v) => reason_json_text(v),
            Message::FileCancel(v) => reason_json_text(v),
            Message::FileDone(d) => {
                let mut r = id_json_text(d.id);
                r.append(",\"sha256\":");
                r.append(codec::json_quote(d.sha256.as_str()).as_str());
                r.append("}");
                r
            },
            _ => String::new(),
        }
    }

    /// The frame of a message; refused only where it is larger than
    /// [`MAX_PLAINTEXT`].
    pub fn encode(&self) -> (r: Result<Vec<u8>, ProtoError>)
        ensures
            match r {
                Ok(v) => v@ == wire(*self) && v@.len() <= MAX_PLAINTEXT,
                Err(e) => wire(*self).len() > MAX_PLAINTEXT && e == ProtoError::TooLarge(
                    wire(*self).len() as usize,
                ) && wire(*self).len() <= usize::MAX,
            },
    {
        let mut out: Vec<u8> = Vec::new();
        out.push(self.type_byte());
        match self {
            Message::FileChunk { id, offset, data } => {
                bytes::append_slice(&mut out, id.0.as_slice());
                bytes::append_slice(&mut out, bytes::write_be(*offset, 8).as_slice());
                bytes::append_slice(&mut out, data.as_slice());
            },
            _ => {
                let json = self.json();
                bytes::append_slice(&mut out, json.as_str().as_bytes());
            },
        }
        proof {
            assert(out@ =~= wire(*self));
        }
        if out.len() > MAX_PLAINTEXT {
            return Err(ProtoError::TooLarge(out.len()));
        }
        Ok(out)
    }

    /// Which JSON object the caller has to read from `buf[1..]` before
    /// [`Message::decode`]; none where the frame carries no JSON or is refused
    /// without looking at it.
    pub fn shape(buf: &[u8]) -> (r: Option<Shape>)
        ensures
            r == frame_shape(buf@),
    {
        if buf.len() == 0 || buf.len() - 1 > MAX_CONTROL_JSON {
            return None;
        }
        let t: u8 = buf[0];
        if t == ty::HELLO {
            Some(Shape::Hello)
        } else if t == ty::PAIR_REQUEST {
            Some(Shape::PairRequest)
        } else if t == ty::PAIR_REJECT {
            Some(Shape::PairReject)
        } else if t == ty::TEXT {
            Some(Shape::Text)
        } else if t == ty::TEXT_ACK || t == ty::FILE_ACCEPT {
            Some(Shape::IdOnly)
        } else if t == ty::FILE_OFFER {
            Some(Shape::FileOffer)
        } else if t == ty::FILE_REJECT || t == ty::FILE_ERROR || t == ty::FILE_CANCEL {
            Some(Shape::IdReason)
        } else if t == ty::FILE_DONE {
            Some(Shape::FileDone)
        } else {
            None
        }
    }

    /// Parse and *validate* a decrypted frame.
    ///
    /// Every bound checked here is a bound an attacker would otherwise control:
    /// allocation sizes, string lengths, file sizes and hash formats. `parsed`
    /// is what the JSON object named by [`Message::shape`] was read as, or the
    /// reader's complaint; it is ignored where there is no such object.
    pub fn decode(buf: &[u8], parsed: Result<Body, String>) -> (r: Result<Message, ProtoError>)
        requires
            frame_shape(buf@) matches Some(shape) ==> (parsed matches Ok(b) ==> b.shape() == shape),
        ensures
            decodes_to(buf@, parsed, r),
    {
        if buf.len() == 0 {
            return Err(ProtoError::Empty);
        }
        let t: u8 = buf[0];
        let n: usize = buf.len() - 1;
        // Binary message first: it is the only one allowed to be large.
        if t == ty::FILE_CHUNK {
            if n < 24 {
                return Err(ProtoError::Malformed("file chunk header"));
            }
            let head = bytes::slice_to_vec(buf, 1, 17);
            let offset: u64 = bytes::read_be(buf, 17, 25);
            if offset > MAX_FILE_SIZE {
                return Err(ProtoError::Malformed("chunk offset"));
            }
            let data = bytes::slice_to_vec(buf, 25, buf.len());
            let id = TransferId(id_from_slice(head.as_slice()));
            proof {
                assert(head@.take(16) =~= head@);
                assert(buf@.subrange(25, buf@.len() as int) =~= buf@.skip(25));
            }
            return Ok(Message::FileChunk { id, offset, data });
        }
        if n > MAX_CONTROL_JSON {
            return Err(ProtoError::TooLarge(n));
        }
        if Message::shape(buf).is_none() {
            return if t == ty::PING {
                Ok(Message::Ping)
            } else if t == ty::PONG {
                Ok(Message::Pong)
            } else if t == ty::PAIR_ACCEPT {
                Ok(Message::PairAccept)
            } else {
                Err(ProtoError::UnknownType(t))
            };
        }
        let body = match parsed {
            Ok(b) => b,
            Err(e) => return Err(ProtoError::Json(e)),
        };
        match body {
            Body::Hello(h) => {
                if h.name.as_str().unicode_len() > MAX_NAME_CHARS {
                    return Err(ProtoError::Malformed("hello name"));
                }
                Ok(Message::Hello(h))
            },
            Body::PairRequest(p) => {
                if p.name.as_str().unicode_len() > MAX_NAME_CHARS {
                    return Err(ProtoError::Malformed("pair name"));
                }
                Ok(Message::PairRequest(p))
            },
            Body::PairReject { reason } => Ok(Message::PairReject { reason }),
            Body::Text(m) => {
                if m.text.as_str().unicode_len() > MAX_TEXT_CHARS {
                    return Err(ProtoError::Malformed("text length"));
                }
                Ok(Message::Text(m))
            },
            Body::IdOnly(i) => {
                if t == ty::TEXT_ACK {
                    Ok(Message::TextAck { id: i.id })
                } else {
                    Ok(Message::FileAccept { id: i.id })
                }
            },
            Body::FileOffer(o) => {
                if o.name.as_str().unicode_len() > MAX_FILENAME_CHARS {
                    return Err(ProtoError::Malformed("file name length"));
                }
                if o.size > MAX_FILE_SIZE {
                    return Err(ProtoError::Malformed("file size"));
                }
                if !check_sha256(o.sha256.as_str()) {
                    return Err(ProtoError::Malformed("sha256"));
                }
                Ok(Message::FileOffer(o))
            },
            Body::IdReason(v) => {
                if t == ty::FILE_REJECT {
                    Ok(Message::FileReject(v))
                } else if t == ty::FILE_ERROR {
                    Ok(Message::FileError(v))
                } else {
                    Ok(Message::FileCancel(v))
                }
            },
            Body::FileDone(d) => {
                if !check_sha256(d.sha256.as_str()) {
                    return Err(ProtoError::Malformed("sha256"));
                }
                Ok(Message::FileDone(d))
            },
        }
    }
}

/// UDP discovery beacon. Completely untrusted: it carries no authentication and
/// is only a hint about where a device *might* be reachable. All trust
/// decisions happen after the Noise handshake.
#[derive(Debug, Clone)]
pub struct Beacon {
    /// Constant magic so we can reject foreign traffic cheaply.
    pub m: String,
    pub v: u16,
    /// Base64 (standard, padded) X25519 static public key.
    pub pk: String,
    pub name: String,
    pub port: u16,
    pub platform: String,
}

/// The JSON object that a control message carries, if it carries one.
pub open spec fn body_of(m: Message) -> Option<Body> {
    match m {
        Message::Hello(h) => Some(Body::Hello(h)),
        Message::PairRequest(p) => Some(Body::PairRequest(p)),
        Message::PairReject { reason } => Some(Body::PairReject { reason }),
        Message::Text(t) => Some(Body::Text(t)),
        Message::TextAck { id } => Some(Body::IdOnly(IdOnly { id })),
        Message::FileOffer(o) => Some(Body::FileOffer(o)),
        Message::FileAccept { id } => Some(Body::IdOnly(IdOnly { id })),
        Message::FileReject(r) => Some(Body::IdReason(r)),
        Message::FileError(r) => Some(Body::IdReason(r)),
        Message::FileCancel(r) => Some(Body::IdReason(r)),
        Message::FileDone(d) => Some(Body::FileDone(d)),
        _ => None,
    }
}

/// The other side can read a message: its values keep their bounds, and its
/// frame is not too large.
pub open spec fn is_readable(m: Message) -> bool {
    match m {
        Message::FileChunk { id, offset, data } => offset <= MAX_FILE_SIZE && data@.len() + 25
            <= MAX_PLAINTEXT,
        _ => {
            &&& body_of(m) matches Some(b) ==> b.fault() is None
            &&& text::utf8_len(json_text(m)) <= MAX_CONTROL_JSON
        },
    }
}

/// A readable message is encoded, and decoding it gives the message back once
/// its JSON object (if it carries one) has been read.
pub proof fn law_readable_message_is_read(
    m: Message,
    parsed: Result<Body, String>,
    r: Result<Message, ProtoError>,
)
    requires
        is_readable(m),
        body_of(m) matches Some(b) ==> parsed == Ok::<Body, String>(b),
        decodes_to(wire(m), parsed, r),
    ensures
        wire(m).len() <= MAX_PLAINTEXT,
        r matches Ok(n) && match m {
            Message::FileChunk { id, offset, data } => n matches Message::FileChunk {
                id: i,
                offset: o,
                data: d,
            } && i.0@ == id.0@ && o == offset && d@ == data@,
            _ => n == m,
        },
{
    match m {
        Message::FileChunk { id, offset, data } => {
            bytes::lemma_be_bytes_len(offset as nat, 8);
            law_chunk_round_trip(id, offset, data, parsed, r);
        },
        _ => {
            match body_of(m) {
                Some(b) => {
                    law_json_round_trip(m, b, r);
                },
                None => {
                    law_bodyless_round_trip(m, parsed, r);
                },
            }
        },
    }
}

proof fn lemma_id_json_bytes(id: TransferId)
    ensures
        text::utf8_len(id_json(id)) == 40,
{
    let h = codec::hex(id.0@);
    codec::lemma_hex_len(id.0@);
    codec::lemma_hex_digits(id.0@);
    assert forall|i: int| 0 <= i < h.len() implies codec::is_plain(#[trigger] h[i]) by {}
    codec::lemma_plain_json(h);
    reveal_strlit("{\"id\":");
    codec::lemma_ascii_bytes("{\"id\":"@);
    text::lemma_utf8_len_concat("{\"id\":"@, codec::json_string(h));
}

/// A text message takes 55 bytes beside its time and its text.
pub proof fn lemma_text_bytes(t: TextMsg)
    ensures
        text::utf8_len(json_text(Message::Text(t))) == 55 + text::utf8_len(
            text::decimal(t.ts as nat),
        ) + text::utf8_len(codec::json_string(t.text@)),
{
    lemma_id_json_bytes(t.id);
    reveal_strlit(",\"ts\":");
    reveal_strlit(",\"text\":");
    reveal_strlit("}");
    codec::lemma_ascii_bytes(",\"ts\":"@);
    codec::lemma_ascii_bytes(",\"text\":"@);
    codec::lemma_ascii_bytes("}"@);
    let a1 = id_json(t.id) + ",\"ts\":"@;
    let a2 = a1 + text::decimal(t.ts as nat);
    let a3 = a2 + ",\"text\":"@;
    let a4 = a3 + codec::json_string(t.text@);
    text::lemma_utf8_len_concat(id_json(t.id), ",\"ts\":"@);
    text::lemma_utf8_len_concat(a1, text::decimal(t.ts as nat));
    text::lemma_utf8_len_concat(a2, ",\"text\":"@);
    text::lemma_utf8_len_concat(a3, codec::json_string(t.text@));
    text::lemma_utf8_len_concat(a4, "}"@);
}

/// An offer whose values keep their bounds fits.
pub proof fn lemma_offer_bytes(o: FileOffer)
    requires
        o.name@.len() <= MAX_FILENAME_CHARS,
        o.sha256@.len() <= 64,
        o.mime@.len() == 0,
    ensures
        text::utf8_len(json_text(Message::FileOffer(o))) <= MAX_CONTROL_JSON,
{
    lemma_id_json_bytes(o.id);
    text::lemma_u64_bytes(o.size);
    codec::lemma_json_string_bytes(o.name@);
    codec::lemma_json_string_bytes(o.sha256@);
    codec::lemma_json_string_bytes(o.mime@);
    reveal_strlit(",\"name\":");
    reveal_strlit(",\"size\":");
    reveal_strlit(",\"sha256\":");
    reveal_strlit(",\"mime\":");
    reveal_strlit("}");
    codec::lemma_ascii_bytes(",\"name\":"@);
    codec::lemma_ascii_bytes(",\"size\":"@);
    codec::lemma_ascii_bytes(",\"sha256\":"@);
    codec::lemma_ascii_bytes(",\"mime\":"@);
    codec::lemma_ascii_bytes("}"@);
    let a1 = id_json(o.id) + ",\"name\":"@;
    let a2 = a1 + codec::json_string(o.name@);
    let a3 = a2 + ",\"size\":"@;
    let a4 = a3 + text::decimal(o.size as nat);
    let a5 = a4 + ",\"sha256\":"@;
    let a6 = a5 + codec::json_string(o.sha256@);
    let a7 = a6 + ",\"mime\":"@;
    let a8 = a7 + codec::json_string(o.mime@);
    text::lemma_utf8_len_concat(id_json(o.id), ",\"name\":"@);
    text::lemma_utf8_len_concat(a1, codec::json_string(o.name@));
    text::lemma_utf8_len_concat(a2, ",\"size\":"@);
    text::lemma_utf8_len_concat(a3, text::decimal(o.size as nat));
    text::lemma_utf8_len_concat(a4, ",\"sha256\":"@);
    text::lemma_utf8_len_concat(a5, codec::json_string(o.sha256@));
    text::lemma_utf8_len_concat(a6, ",\"mime\":"@);
    text::lemma_utf8_len_concat(a7, codec::json_string(o.mime@));
    text::lemma_utf8_len_concat(a8, "}"@);
}

/// The last message of a file fits.
pub proof fn lemma_done_bytes(d: FileDone)
    requires
        d.sha256@.len() <= 64,
    ensures
        text::utf8_len(json_text(Message::FileDone(d))) <= MAX_CONTROL_JSON,
{
    lemma_id_json_bytes(d.id);
    codec::lemma_json_string_bytes(d.sha256@);
    reveal_strlit(",\"sha256\":");
    reveal_strlit("}");
    codec::lemma_ascii_bytes(",\"sha256\":"@);
    codec::lemma_ascii_bytes("}"@);
    let a1 = id_json(d.id) + ",\"sha256\":"@;
    let a2 = a1 + codec::json_string(d.sha256@);
    text::lemma_utf8_len_concat(id_json(d.id), ",\"sha256\":"@);
    text::lemma_utf8_len_concat(a1, codec::json_string(d.sha256@));
    text::lemma_utf8_len_concat(a2, "}"@);
}

/// The reason that a message gives for refusing or ending something.
pub open spec fn reason_of(m: Message) -> Seq<char> {
    match m {
        Message::PairReject { reason } => reason@,
        Message::FileReject(r) => r.reason@,
        Message::FileError(r) => r.reason@,
        Message::FileCancel(r) => r.reason@,
        _ => Seq::empty(),
    }
}

/// Every answer can be read, if the reason that it gives is no longer than two
/// thousand characters.
pub proof fn law_answers_are_readable(m: Message)
    requires
        reason_of(m).len() <= 2000,
        !(m is Hello || m is PairRequest || m is Text || m is FileOffer || m is FileChunk
            || m is FileDone),
    ensures
        is_readable(m),
{
    let why = codec::json_string(reason_of(m));
    codec::lemma_json_string_bytes(reason_of(m));
    reveal_strlit("{\"reason\":");
    reveal_strlit(",\"reason\":");
    reveal_strlit("}");
    codec::lemma_ascii_bytes("{\"reason\":"@);
    codec::lemma_ascii_bytes(",\"reason\":"@);
    codec::lemma_ascii_bytes("}"@);
    text::lemma_utf8_len_bounds(Seq::<char>::empty());
    match m {
        Message::PairReject { reason } => {
            text::lemma_utf8_len_concat("{\"reason\":"@, why);
            text::lemma_utf8_len_concat("{\"reason\":"@ + why, "}"@);
        },
        Message::TextAck { id } => {
            lemma_id_json_bytes(id);
            text::lemma_utf8_len_concat(id_json(id), "}"@);
        },
        Message::FileAccept { id } => {
            lemma_id_json_bytes(id);
            text::lemma_utf8_len_concat(id_json(id), "}"@);
        },
        Message::FileReject(r) => {
            lemma_reason_bytes(r);
        },
        Message::FileError(r) => {
            lemma_reason_bytes(r);
        },
        Message::FileCancel(r) => {
            lemma_reason_bytes(r);
        },
        _ => {},
    }
}

proof fn lemma_reason_bytes(r: IdReason)
    requires
        r.reason@.len() <= 2000,
    ensures
        text::utf8_len(reason_json(r)) <= MAX_CONTROL_JSON,
{
    let why = codec::json_string(r.reason@);
    lemma_id_json_bytes(r.id);
    codec::lemma_json_string_bytes(r.reason@);
    reveal_strlit(",\"reason\":");
    reveal_strlit("}");
    codec::lemma_ascii_bytes(",\"reason\":"@);
    codec::lemma_ascii_bytes("}"@);
    text::lemma_utf8_len_concat(id_json(r.id), ",\"reason\":"@);
    text::lemma_utf8_len_concat(id_json(r.id) + ",\"reason\":"@, why);
    text::lemma_utf8_len_concat(id_json(r.id) + ",\"reason\":"@ + why, "}"@);
}

/// A greeting whose values keep their bounds fits.
pub proof fn lemma_hello_bytes(h: Hello)
    requires
        h.name@.len() <= MAX_NAME_CHARS,
        h.platform@.len() <= MAX_NAME_CHARS,
    ensures
        text::utf8_len(json_text(Message::Hello(h))) <= MAX_CONTROL_JSON,
{
    codec::lemma_json_string_bytes(h.name@);
    codec::lemma_json_string_bytes(h.platform@);
    text::lemma_u64_bytes(h.version as u64);
    reveal_strlit("{\"name\":");
    reveal_strlit(",\"version\":");
    reveal_strlit(",\"platform\":");
    reveal_strlit("}");
    codec::lemma_ascii_bytes("{\"name\":"@);
    codec::lemma_ascii_bytes(",\"version\":"@);
    codec::lemma_ascii_bytes(",\"platform\":"@);
    codec::lemma_ascii_bytes("}"@);
    let a1 = "{\"name\":"@ + codec::json_string(h.name@);
    let a2 = a1 + ",\"version\":"@;
    let a3 = a2 + text::decimal(h.version as nat);
    let a4 = a3 + ",\"platform\":"@;
    let a5 = a4 + codec::json_string(h.platform@);
    text::lemma_utf8_len_concat("{\"name\":"@, codec::json_string(h.name@));
    text::lemma_utf8_len_concat(a1, ",\"version\":"@);
    text::lemma_utf8_len_concat(a2, text::decimal(h.version as nat));
    text::lemma_utf8_len_concat(a3, ",\"platform\":"@);
    text::lemma_utf8_len_concat(a4, codec::json_string(h.platform@));
    text::lemma_utf8_len_concat(a5, "}"@);
}

/// A request to pair whose values keep their bounds fits.
pub proof fn lemma_pair_request_bytes(p: PairRequest)
    requires
        p.name@.len() <= MAX_NAME_CHARS,
        p.platform@.len() <= MAX_NAME_CHARS,
    ensures
        text::utf8_len(json_text(Message::PairRequest(p))) <= MAX_CONTROL_JSON,
{
    codec::lemma_json_string_bytes(p.name@);
    codec::lemma_json_string_bytes(p.platform@);
    reveal_strlit("{\"name\":");
    reveal_strlit(",\"platform\":");
    reveal_strlit("}");
    codec::lemma_ascii_bytes("{\"name\":"@);
    codec::lemma_ascii_bytes(",\"platform\":"@);
    codec::lemma_ascii_bytes("}"@);
    let a1 = "{\"name\":"@ + codec::json_string(p.name@);
    let a2 = a1 + ",\"platform\":"@;
    let a3 = a2 + codec::json_string(p.platform@);
    text::lemma_utf8_len_concat("{\"name\":"@, codec::json_string(p.name@));
    text::lemma_utf8_len_concat(a1, ",\"platform\":"@);
    text::lemma_utf8_len_concat(a2, codec::json_string(p.platform@));
    text::lemma_utf8_len_concat(a3, "}"@);
}

/// A file chunk that is sent within the limits is read back as it was.
pub proof fn law_chunk_round_trip(
    id: TransferId,
    offset: u64,
    data: Vec<u8>,
    parsed: Result<Body, String>,
    r: Result<Message, ProtoError>,
)
    requires
        offset <= MAX_FILE_SIZE,
        decodes_to(wire(Message::FileChunk { id, offset, data }), parsed, r),
    ensures
        r matches Ok(Message::FileChunk { id: i, offset: o, data: d }) && i.0@ == id.0@ && o
            == offset && d@ == data@,
{
    let w = wire(Message::FileChunk { id, offset, data });
    bytes::lemma_be_bytes_len(offset as nat, 8);
    bytes::lemma_pow256_sizes();
    bytes::lemma_be_value_of_bytes(offset as nat, 8);
    assert(w.subrange(1, 17) =~= id.0@);
    assert(w.subrange(17, 25) =~= bytes::be_bytes(offset as nat, 8));
    assert(w.skip(25) =~= data@);
}

/// A message without a payload is read back as it was.
pub proof fn law_bodyless_round_trip(
    m: Message,
    parsed: Result<Body, String>,
    r: Result<Message, ProtoError>,
)
    requires
        m is Ping || m is Pong || m is PairAccept,
        decodes_to(wire(m), parsed, r),
    ensures
        r matches Ok(n) && n == m,
{
    assert(wire(m) =~= seq![m.spec_type_byte()]);
}

/// A control message whose values keep their bounds and whose JSON fits is read
/// back as it was, once its JSON object has been read.
pub proof fn law_json_round_trip(m: Message, b: Body, r: Result<Message, ProtoError>)
    requires
        body_of(m) == Some(b),
        b.fault() is None,
        wire(m).len() - 1 <= MAX_CONTROL_JSON,
        decodes_to(wire(m), Ok(b), r),
    ensures
        frame_shape(wire(m)) == Some(b.shape()),
        r matches Ok(n) && n == m,
{
    assert(wire(m)[0] == m.spec_type_byte());
}

/// Whatever a frame is read as keeps the bounds, and its type is the frame's
/// first byte.
pub proof fn law_decoded_keeps_bounds(
    buf: Seq<u8>,
    parsed: Result<Body, String>,
    m: Message,
)
    requires
        decodes_to(buf, parsed, Ok(m)),
        frame_shape(buf) matches Some(shape) ==> (parsed matches Ok(b) ==> b.shape() == shape),
    ensures
        buf.len() > 0,
        m.spec_type_byte() == buf[0],
        m matches Message::Hello(h) ==> h.name@.len() <= MAX_NAME_CHARS,
        m matches Message::PairRequest(p) ==> p.name@.len() <= MAX_NAME_CHARS,
        m matches Message::Text(t) ==> t.text@.len() <= MAX_TEXT_CHARS,
        m matches Message::FileOffer(o) ==> o.name@.len() <= MAX_FILENAME_CHARS && o.size
            <= MAX_FILE_SIZE && is_sha256(o.sha256@),
        m matches Message::FileDone(d) ==> is_sha256(d.sha256@),
        m matches Message::FileChunk { id, offset, data } ==> offset <= MAX_FILE_SIZE && data@.len()
            + 25 == buf.len(),
{
}

/// The messages that may precede pairing are those with a type below 0x20:
/// texts and files never do.
pub proof fn law_pairing_types(m: Message)
    ensures
        m.may_precede_pairing() <==> m.spec_type_byte() < ty::TEXT,
{
}

} // verus!
