//! What holds of the calls that turn messages into bytes and back.

use vstd::prelude::*;
use vstd::utf8::*;
use crate::bytes;
use crate::codec;
use crate::proto;
use crate::proto::{Body, Message, ProtoError, Shape, TransferId, TransferIdError};
use crate::text;

verus! {

/// Every message has its own type byte, which comes first in its frame.
pub proof fn law_type_bytes(m: &Message, t: u8, r: Result<Vec<u8>, ProtoError>)
    requires
        call_ensures(Message::type_byte, (m,), t),
        call_ensures(Message::encode, (m,), r),
    ensures
        t == match *m {
            Message::Hello(_) => 0x01u8,
            Message::Ping => 0x02,
            Message::Pong => 0x03,
            Message::PairRequest(_) => 0x10,
            Message::PairAccept => 0x11,
            Message::PairReject { .. } => 0x12,
            Message::Text(_) => 0x20,
            Message::TextAck { .. } => 0x21,
            Message::FileOffer(_) => 0x30,
            Message::FileAccept { .. } => 0x31,
            Message::FileReject(_) => 0x32,
            Message::FileChunk { .. } => 0x33,
            Message::FileDone(_) => 0x34,
            Message::FileError(_) => 0x35,
            Message::FileCancel(_) => 0x36,
        },
        r matches Ok(v) ==> 1 <= v@.len() <= 65519 && v@[0] == t,
        r matches Err(e) ==> e is TooLarge,
{
}

/// A piece of a file is sent as its type, the sixteen bytes of its identifier,
/// its offset in eight bytes, most significant first, and its bytes; it is sent
/// if it fits.
pub proof fn law_frame_of_a_chunk(
    id: TransferId,
    offset: u64,
    data: Vec<u8>,
    m: &Message,
    r: Result<Vec<u8>, ProtoError>,
)
    requires
        *m == (Message::FileChunk { id, offset, data }),
        call_ensures(Message::encode, (m,), r),
    ensures
        r is Ok <==> data@.len() + 25 <= 65519,
        r matches Ok(v) ==> {
            &&& v@.len() == data@.len() + 25
            &&& v@[0] == 0x33
            &&& v@.subrange(1, 17) == id.0@
            &&& v@[17] * 0x100_0000_0000_0000 + v@[18] * 0x1_0000_0000_0000 + v@[19]
                * 0x100_0000_0000 + v@[20] * 0x1_0000_0000 + v@[21] * 0x100_0000 + v@[22] * 0x1_0000
                + v@[23] * 0x100 + v@[24] == offset
            &&& v@.skip(25) == data@
        },
{
    let w = proto::wire(*m);
    bytes::lemma_be_bytes_len(offset as nat, 8);
    bytes::lemma_pow256_sizes();
    bytes::lemma_be_value_of_bytes(offset as nat, 8);
    assert(w.subrange(1, 17) =~= id.0@);
    assert(w.subrange(17, 25) =~= bytes::be_bytes(offset as nat, 8));
    assert(w.skip(25) =~= data@);
    lemma_eight(w.subrange(17, 25));
}

proof fn lemma_eight(s: Seq<u8>)
    requires
        s.len() == 8,
    ensures
        bytes::be_value(s) == s[0] * 0x100_0000_0000_0000 + s[1] * 0x1_0000_0000_0000 + s[2]
            * 0x100_0000_0000 + s[3] * 0x1_0000_0000 + s[4] * 0x100_0000 + s[5] * 0x1_0000 + s[6]
            * 0x100 + s[7],
{
    reveal_with_fuel(bytes::be_value, 9);
    let s7 = s.drop_last();
    let s6 = s7.drop_last();
    let s5 = s6.drop_last();
    let s4 = s5.drop_last();
    let s3 = s4.drop_last();
    let s2 = s3.drop_last();
    let s1 = s2.drop_last();
    assert(s1.drop_last().len() == 0);
}

/// A piece of a file is read as it was sent, up to an offset of 1 TiB.
pub proof fn law_chunks_are_read_back(
    id: TransferId,
    offset: u64,
    data: Vec<u8>,
    m: &Message,
    v: Vec<u8>,
    buf: &[u8],
    parsed: Result<Body, String>,
    r: Result<Message, ProtoError>,
)
    requires
        *m == (Message::FileChunk { id, offset, data }),
        call_ensures(Message::encode, (m,), Ok::<Vec<u8>, ProtoError>(v)),
        buf@ == v@,
        call_ensures(Message::decode, (buf, parsed), r),
    ensures
        offset <= 0x100_0000_0000 ==> (r matches Ok(Message::FileChunk {
            id: i,
            offset: o,
            data: d,
        }) && i.0@ == id.0@ && o == offset && d@ == data@),
        offset > 0x100_0000_0000 ==> r is Err,
{
    if offset <= 0x100_0000_0000 {
        proto::law_chunk_round_trip(id, offset, data, parsed, r);
    } else {
        let w = proto::wire(*m);
        bytes::lemma_be_bytes_len(offset as nat, 8);
        bytes::lemma_pow256_sizes();
        bytes::lemma_be_value_of_bytes(offset as nat, 8);
        assert(w.subrange(17, 25) =~= bytes::be_bytes(offset as nat, 8));
    }
}

/// Sixty-four hexadecimal digits.
pub open spec fn is_hash(s: Seq<char>) -> bool {
    s.len() == 64 && forall|i: int|
        0 <= i < 64 ==> '0' <= #[trigger] s[i] <= '9' || 'a' <= s[i] <= 'f' || 'A' <= s[i] <= 'F'
}

/// The values of a message that its JSON object was read as, within the bounds
/// that the other side accepts.
pub open spec fn holds(m: Message, b: Body) -> bool {
    match m {
        Message::Hello(h) => b == Body::Hello(h) && h.name@.len() <= 64,
        Message::PairRequest(p) => b == Body::PairRequest(p) && p.name@.len() <= 64,
        Message::PairReject { reason } => b == (Body::PairReject { reason }),
        Message::Text(t) => b == Body::Text(t) && t.text@.len() <= 4096,
        Message::TextAck { id } => b matches Body::IdOnly(i) && i.id == id,
        Message::FileOffer(o) => b == Body::FileOffer(o) && o.name@.len() <= 255 && o.size
            <= 0x100_0000_0000 && is_hash(o.sha256@),
        Message::FileAccept { id } => b matches Body::IdOnly(i) && i.id == id,
        Message::FileReject(x) => b == Body::IdReason(x),
        Message::FileError(x) => b == Body::IdReason(x),
        Message::FileCancel(x) => b == Body::IdReason(x),
        Message::FileDone(d) => b == Body::FileDone(d) && is_hash(d.sha256@),
        _ => false,
    }
}

/// A message whose values keep their bounds, and whose JSON has at most 16384
/// bytes, is read as the message that was sent.
pub proof fn law_messages_are_read_back(
    m: &Message,
    v: Vec<u8>,
    buf: &[u8],
    b: Body,
    r: Result<Message, ProtoError>,
)
    requires
        holds(*m, b),
        call_ensures(Message::encode, (m,), Ok::<Vec<u8>, ProtoError>(v)),
        v@.len() <= 16385,
        buf@ == v@,
        call_ensures(Message::decode, (buf, Ok::<Body, String>(b)), r),
    ensures
        r == Ok::<Message, ProtoError>(*m),
{
    match *m {
        Message::FileOffer(o) => {
            lemma_hash(o.sha256@);
        },
        Message::FileDone(d) => {
            lemma_hash(d.sha256@);
        },
        _ => {},
    }
    assert(proto::wire(*m)[0] == m.spec_type_byte());
}

proof fn lemma_hash(s: Seq<char>)
    ensures
        is_hash(s) <==> proto::is_sha256(s),
{
    if is_hash(s) {
        assert forall|i: int| 0 <= i < s.len() implies codec::is_hex_digit(#[trigger] s[i]) by {}
    }
    if proto::is_sha256(s) {
        assert forall|i: int| 0 <= i < 64 implies '0' <= #[trigger] s[i] <= '9' || 'a' <= s[i]
            <= 'f' || 'A' <= s[i] <= 'F' by {
            assert(codec::is_hex_digit(s[i]));
        }
    }
}

/// Messages without a payload are read as what they are.
pub proof fn law_signals_are_read_back(
    m: &Message,
    v: Vec<u8>,
    buf: &[u8],
    parsed: Result<Body, String>,
    r: Result<Message, ProtoError>,
)
    requires
        m is Ping || m is Pong || m is PairAccept,
        call_ensures(Message::encode, (m,), Ok::<Vec<u8>, ProtoError>(v)),
        buf@ == v@,
        call_ensures(Message::decode, (buf, parsed), r),
    ensures
        v@.len() == 1,
        r == Ok::<Message, ProtoError>(*m),
{
    assert(proto::wire(*m) =~= seq![m.spec_type_byte()]);
}

/// What cannot be a message is refused: nothing, an unknown type, and JSON that
/// is too long or could not be read.
pub proof fn law_what_is_no_message(
    buf: &[u8],
    parsed: Result<Body, String>,
    r: Result<Message, ProtoError>,
)
    requires
        call_ensures(Message::decode, (buf, parsed), r),
    ensures
        buf@.len() == 0 ==> (r matches Err(e) && e is Empty),
        buf@.len() > 16385 && buf@[0] != 0x33 ==> (r matches Err(ProtoError::TooLarge(n)) && n
            == buf@.len() - 1),
        0 < buf@.len() <= 16385 ==> {
            let t = buf@[0];
            let known = t == 0x01 || t == 0x02 || t == 0x03 || t == 0x10 || t == 0x11 || t == 0x12
                || t == 0x20 || t == 0x21 || t == 0x30 || t == 0x31 || t == 0x32 || t == 0x33 || t
                == 0x34 || t == 0x35 || t == 0x36;
            &&& !known ==> (r matches Err(ProtoError::UnknownType(u)) && u == t)
            &&& known && t != 0x02 && t != 0x03 && t != 0x11 && t != 0x33 ==> (parsed matches Err(
                why,
            ) ==> (r matches Err(ProtoError::Json(w)) && w == why))
        },
        0 < buf@.len() < 25 && buf@[0] == 0x33 ==> r is Err,
{
}

/// Values beyond their bounds are refused: names over 64 characters, texts over
/// 4096, file names over 255, sizes over 1 TiB, and hashes that are none.
pub proof fn law_bounds_are_checked(buf: &[u8], b: Body, r: Result<Message, ProtoError>)
    requires
        0 < buf@.len() <= 16385,
        call_ensures(Message::decode, (buf, Ok::<Body, String>(b)), r),
    ensures
        b matches Body::Hello(h) ==> (buf@[0] == 0x01 ==> (r is Ok <==> h.name@.len() <= 64)),
        b matches Body::PairRequest(p) ==> (buf@[0] == 0x10 ==> (r is Ok <==> p.name@.len() <= 64)),
        b matches Body::Text(t) ==> (buf@[0] == 0x20 ==> (r is Ok <==> t.text@.len() <= 4096)),
        b matches Body::FileOffer(o) ==> (buf@[0] == 0x30 ==> (r is Ok <==> o.name@.len() <= 255
            && o.size <= 0x100_0000_0000 && is_hash(o.sha256@))),
        b matches Body::FileDone(d) ==> (buf@[0] == 0x34 ==> (r is Ok <==> is_hash(d.sha256@))),
{
    match b {
        Body::FileOffer(o) => {
            lemma_hash(o.sha256@);
        },
        Body::FileDone(d) => {
            lemma_hash(d.sha256@);
        },
        _ => {},
    }
}

/// Which JSON object follows a type byte.
pub proof fn law_which_object_is_read(buf: &[u8], r: Option<Shape>)
    requires
        call_ensures(Message::shape, (buf,), r),
        0 < buf@.len() <= 16385,
    ensures
        buf@[0] == 0x01 ==> r == Some(Shape::Hello),
        buf@[0] == 0x10 ==> r == Some(Shape::PairRequest),
        buf@[0] == 0x12 ==> r == Some(Shape::PairReject),
        buf@[0] == 0x20 ==> r == Some(Shape::Text),
        buf@[0] == 0x21 ==> r == Some(Shape::IdOnly),
        buf@[0] == 0x30 ==> r == Some(Shape::FileOffer),
        buf@[0] == 0x31 ==> r == Some(Shape::IdOnly),
        buf@[0] == 0x32 || buf@[0] == 0x35 || buf@[0] == 0x36 ==> r == Some(Shape::IdReason),
        buf@[0] == 0x34 ==> r == Some(Shape::FileDone),
        buf@[0] == 0x02 || buf@[0] == 0x03 || buf@[0] == 0x11 || buf@[0] == 0x33 || buf@[0] > 0x36
            ==> r is None,
{
}

/// The JSON of a text names its identifier, its time and the text, each as JSON
/// writes it; that of an offer the identifier, the name, the size, the hash and
/// the kind of the file.
pub proof fn law_json_of_messages(m: &Message, v: Vec<u8>)
    requires
        call_ensures(Message::encode, (m,), Ok::<Vec<u8>, ProtoError>(v)),
    ensures
        m matches Message::Text(t) ==> v@.skip(1) == encode_utf8(
            "{\"id\":"@ + codec::json_string(codec::hex(t.id.0@)) + ",\"ts\":"@ + text::decimal(
                t.ts as nat,
            ) + ",\"text\":"@ + codec::json_string(t.text@) + "}"@,
        ),
        m matches Message::FileOffer(o) ==> v@.skip(1) == encode_utf8(
            "{\"id\":"@ + codec::json_string(codec::hex(o.id.0@)) + ",\"name\":"@
                + codec::json_string(o.name@) + ",\"size\":"@ + text::decimal(o.size as nat)
                + ",\"sha256\":"@ + codec::json_string(o.sha256@) + ",\"mime\":"@
                + codec::json_string(o.mime@) + "}"@,
        ),
        m matches Message::Hello(h) ==> v@.skip(1) == encode_utf8(
            "{\"name\":"@ + codec::json_string(h.name@) + ",\"version\":"@ + text::decimal(
                h.version as nat,
            ) + ",\"platform\":"@ + codec::json_string(h.platform@) + "}"@,
        ),
        m matches Message::PairRequest(p) ==> v@.skip(1) == encode_utf8(
            "{\"name\":"@ + codec::json_string(p.name@) + ",\"platform\":"@ + codec::json_string(
                p.platform@,
            ) + "}"@,
        ),
        m matches Message::PairReject { reason } ==> v@.skip(1) == encode_utf8(
            "{\"reason\":"@ + codec::json_string(reason@) + "}"@,
        ),
        m matches Message::TextAck { id } ==> v@.skip(1) == encode_utf8(
            "{\"id\":"@ + codec::json_string(codec::hex(id.0@)) + "}"@,
        ),
        m matches Message::FileAccept { id } ==> v@.skip(1) == encode_utf8(
            "{\"id\":"@ + codec::json_string(codec::hex(id.0@)) + "}"@,
        ),
        m matches Message::FileReject(x) ==> v@.skip(1) == encode_utf8(
            "{\"id\":"@ + codec::json_string(codec::hex(x.id.0@)) + ",\"reason\":"@
                + codec::json_string(x.reason@) + "}"@,
        ),
        m matches Message::FileError(x) ==> v@.skip(1) == encode_utf8(
            "{\"id\":"@ + codec::json_string(codec::hex(x.id.0@)) + ",\"reason\":"@
                + codec::json_string(x.reason@) + "}"@,
        ),
        m matches Message::FileCancel(x) ==> v@.skip(1) == encode_utf8(
            "{\"id\":"@ + codec::json_string(codec::hex(x.id.0@)) + ",\"reason\":"@
                + codec::json_string(x.reason@) + "}"@,
        ),
        m matches Message::FileDone(d) ==> v@.skip(1) == encode_utf8(
            "{\"id\":"@ + codec::json_string(codec::hex(d.id.0@)) + ",\"sha256\":"@
                + codec::json_string(d.sha256@) + "}"@,
        ),
{
    if !(m is FileChunk) {
        assert(v@.skip(1) =~= encode_utf8(proto::json_text(*m)));
    }
}

/// Before pairing a peer may greet, keep the connection alive and pair: the
/// messages below the first type of a text.
pub proof fn law_what_may_be_said_before_pairing(m: &Message, r: bool, t: u8)
    requires
        call_ensures(Message::allowed_before_pairing, (m,), r),
        call_ensures(Message::type_byte, (m,), t),
    ensures
        r <==> t < 0x20,
        m is Text || m is TextAck || m is FileOffer || m is FileAccept || m is FileReject
            || m is FileChunk || m is FileDone || m is FileError || m is FileCancel ==> !r,
        m is Hello || m is Ping || m is Pong || m is PairRequest || m is PairAccept
            || m is PairReject ==> r,
{
}

/// An identifier is read as the one that was written; its short form is the
/// beginning of the long one; and different ones have different numbers.
pub proof fn law_transfer_identifiers(
    id: &TransferId,
    other: &TransferId,
    shown: String,
    short: String,
    s: &str,
    r: Result<TransferId, TransferIdError>,
    k: u128,
    l: u128,
)
    requires
        call_ensures(TransferId::text, (id,), shown),
        call_ensures(TransferId::short, (id,), short),
        s@ == shown@,
        call_ensures(TransferId::from_hex, (s,), r),
        call_ensures(TransferId::key, (id,), k),
        call_ensures(TransferId::key, (other,), l),
    ensures
        r matches Ok(i) && i.0@ == id.0@,
        short@ == shown@.take(8),
        shown@.len() == 32,
        k == l <==> id.0@ == other.0@,
{
    codec::lemma_hex_len(id.0@);
    codec::lemma_hex_is_lower(id.0@);
    assert forall|v: Seq<u8>| #[trigger] codec::hex(v) == codec::hex(id.0@) implies v == id.0@ by {
        codec::lemma_hex_injective(v, id.0@);
    }
    assert(codec::hex(id.0@) == text::lower_all(s@));
    if r is Ok {
        codec::lemma_hex_injective(r->Ok_0.0@, id.0@);
    }
    lemma_hex_take(id.0@, 4);
    if k == l {
        bytes::lemma_be_value_injective(id.0@, other.0@);
    }
}

proof fn lemma_hex_take(s: Seq<u8>, n: int)
    requires
        0 <= n <= s.len(),
    ensures
        codec::hex(s.take(n)) == codec::hex(s).take(2 * n),
    decreases s.len(),
{
    codec::lemma_hex_len(s);
    if n == s.len() {
        assert(s.take(n) =~= s);
        assert(codec::hex(s).take(2 * n) =~= codec::hex(s));
    } else {
        let t = s.drop_last();
        codec::lemma_hex_len(t);
        lemma_hex_take(t, n);
        assert(t.take(n) =~= s.take(n));
        assert(codec::hex(t).take(2 * n) =~= codec::hex(s).take(2 * n));
    }
}

/// Numbers are read as they were written, most significant byte first.
pub proof fn law_numbers_in_bytes(v: u64, n: usize, r: Vec<u8>, buf: &[u8], read: u64, rest: Vec<u8>)
    requires
        n == 8,
        call_ensures(bytes::write_be, (v, n), r),
        call_ensures(bytes::write_be, (v / 256, (n - 1) as usize), rest),
        buf@ == r@,
        call_ensures(bytes::read_be, (buf, 0, 8), read),
    ensures
        r@.len() == n,
        r@ == rest@.push((v % 256) as u8),
        read == v,
{
    bytes::lemma_be_bytes_len(v as nat, n as nat);
    bytes::lemma_pow256_sizes();
    bytes::lemma_be_value_of_bytes(v as nat, 8);
    assert(buf@.subrange(0, 8) =~= r@);
}

/// Bytes are put behind others, cut out and compared as they are.
pub proof fn law_handling_bytes(
    dst: &mut Vec<u8>,
    src: &[u8],
    v: &[u8],
    from: usize,
    to: usize,
    part: Vec<u8>,
    equal: bool,
)
    requires
        call_ensures(bytes::append_slice, (dst, src), ()),
        from <= to <= v@.len(),
        call_ensures(bytes::slice_to_vec, (v, from, to), part),
        call_ensures(bytes::bytes_equal, (src, v), equal),
    ensures
        final(dst)@ == old(dst)@ + src@,
        part@ == v@.subrange(from as int, to as int),
        equal <==> src@ == v@,
{
}

} // verus!
