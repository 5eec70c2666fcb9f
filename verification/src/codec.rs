//! Text forms of bytes: hexadecimal, base64, JSON strings and UTF-8.

use base64::engine::general_purpose::{STANDARD, URL_SAFE_NO_PAD};
use base64::Engine as _;
use vstd::prelude::*;
use vstd::utf8::*;
use crate::text;

verus! {

/// The character for a value below 16, in lower case.
pub open spec fn hex_digit(n: int) -> char {
    if n < 10 {
        ((48 + n) as u32) as char
    } else {
        ((87 + n) as u32) as char
    }
}

/// Two lower-case hexadecimal digits for each byte.
pub open spec fn hex(s: Seq<u8>) -> Seq<char>
    decreases s.len(),
{
    if s.len() == 0 {
        Seq::empty()
    } else {
        hex(s.drop_last()) + seq![hex_digit(s.last() as int / 16), hex_digit(s.last() as int % 16)]
    }
}

/// Characters that [`hex::decode`] takes for a digit.
pub open spec fn is_hex_digit(c: char) -> bool {
    '0' <= c <= '9' || 'a' <= c <= 'f' || 'A' <= c <= 'F'
}

#[verifier::external_type_specification]
#[verifier::external_body]
pub struct ExFromHexError(hex::FromHexError);

/// `hex::encode`: two lower-case digits for each byte, high half first.
#[verifier::external_body]
pub(crate) fn hex_encode(data: &[u8]) -> (r: String)
    ensures
        r@ == hex(data@),
{
    hex::encode(data)
}

/// `hex::decode`: succeeds on exactly the strings that spell a byte sequence in
/// hexadecimal digits of either case, and returns that sequence. Which error is
/// reported for another string is not stated.
#[verifier::external_body]
pub(crate) fn hex_decode(s: &str) -> (r: Result<Vec<u8>, hex::FromHexError>)
    ensures
        match r {
            Ok(v) => text::lower_all(s@) == hex(v@),
            Err(_) => forall|v: Seq<u8>| text::lower_all(s@) != #[trigger] hex(v),
        },
{
    hex::decode(s)
}

pub proof fn lemma_hex_len(s: Seq<u8>)
    ensures
        hex(s).len() == 2 * s.len(),
    decreases s.len(),
{
    if s.len() > 0 {
        lemma_hex_len(s.drop_last());
    }
}

/// Lower-case hexadecimal digits only.
pub proof fn lemma_hex_digits(s: Seq<u8>)
    ensures
        forall|i: int|
            0 <= i < hex(s).len() ==> '0' <= #[trigger] hex(s)[i] <= '9' || 'a' <= hex(s)[i]
                <= 'f',
    decreases s.len(),
{
    if s.len() > 0 {
        lemma_hex_digits(s.drop_last());
        let p = hex(s.drop_last());
        assert forall|i: int| 0 <= i < hex(s).len() implies '0' <= #[trigger] hex(s)[i] <= '9'
            || 'a' <= hex(s)[i] <= 'f' by {
            if i < p.len() {
                assert(hex(s)[i] == p[i]);
            } else if i == p.len() {
                assert(hex(s)[i] == hex_digit(s.last() as int / 16));
            } else {
                assert(hex(s)[i] == hex_digit(s.last() as int % 16));
            }
        }
    }
}

proof fn lemma_control_digits(c: char)
    requires
        c <= '\u{1f}',
    ensures
        hex_digit(c as int / 16) <= 'f',
        hex_digit(c as int % 16) <= 'f',
{
}

proof fn lemma_hex_digit_injective(a: int, b: int)
    requires
        0 <= a < 16,
        0 <= b < 16,
        hex_digit(a) == hex_digit(b),
    ensures
        a == b,
{
}

/// Byte sequences are told apart by their hexadecimal forms.
pub proof fn lemma_hex_injective(a: Seq<u8>, b: Seq<u8>)
    requires
        hex(a) == hex(b),
    ensures
        a == b,
    decreases a.len(),
{
    lemma_hex_len(a);
    lemma_hex_len(b);
    if a.len() > 0 {
        let n = hex(a).len();
        lemma_hex_len(a.drop_last());
        lemma_hex_len(b.drop_last());
        assert(hex(a).take(n - 2) =~= hex(a.drop_last()));
        assert(hex(b).take(n - 2) =~= hex(b.drop_last()));
        lemma_hex_injective(a.drop_last(), b.drop_last());
        assert(hex(a)[n - 2] == hex_digit(a.last() as int / 16));
        assert(hex(b)[n - 2] == hex_digit(b.last() as int / 16));
        assert(hex(a)[n - 1] == hex_digit(a.last() as int % 16));
        assert(hex(b)[n - 1] == hex_digit(b.last() as int % 16));
        lemma_hex_digit_injective(a.last() as int / 16, b.last() as int / 16);
        lemma_hex_digit_injective(a.last() as int % 16, b.last() as int % 16);
        assert(a =~= a.drop_last().push(a.last()));
        assert(b =~= b.drop_last().push(b.last()));
    } else {
        assert(a =~= b);
    }
}

/// A hexadecimal form has no upper-case letter to lower.
pub proof fn lemma_hex_is_lower(s: Seq<u8>)
    ensures
        text::lower_all(hex(s)) == hex(s),
{
    lemma_hex_digits(s);
    assert(text::lower_all(hex(s)) =~= hex(s));
}

/// The base64 character for a 6-bit value, in the standard or the URL-safe
/// alphabet.
pub open spec fn b64_char(url: bool, v: int) -> char {
    if v < 26 {
        ((65 + v) as u32) as char
    } else if v < 52 {
        ((97 + (v - 26)) as u32) as char
    } else if v < 62 {
        ((48 + (v - 52)) as u32) as char
    } else if v == 62 {
        if url {
            '-'
        } else {
            '+'
        }
    } else {
        if url {
            '_'
        } else {
            '/'
        }
    }
}

/// The base64 form of a byte sequence: standard alphabet with padding, or the
/// URL-safe alphabet without.
pub open spec fn b64(url: bool, s: Seq<u8>) -> Seq<char>
    decreases s.len(),
{
    let a = s[0] as int;
    let b = s[1] as int;
    let c = s[2] as int;
    if s.len() == 0 {
        Seq::empty()
    } else if s.len() == 1 {
        seq![b64_char(url, a / 4), b64_char(url, a % 4 * 16)] + (if url {
            Seq::empty()
        } else {
            seq!['=', '=']
        })
    } else if s.len() == 2 {
        seq![b64_char(url, a / 4), b64_char(url, a % 4 * 16 + b / 16), b64_char(url, b % 16 * 4)]
            + (if url {
            Seq::empty()
        } else {
            seq!['=']
        })
    } else {
        seq![
            b64_char(url, a / 4),
            b64_char(url, a % 4 * 16 + b / 16),
            b64_char(url, b % 16 * 4 + c / 64),
            b64_char(url, c % 64),
        ] + b64(url, s.skip(3))
    }
}

/// `STANDARD.encode` of the crate `base64`: the standard alphabet, padded.
#[verifier::external_body]
pub(crate) fn b64_encode(data: &[u8]) -> (r: String)
    requires
        data@.len() <= usize::MAX / 4,
    ensures
        r@ == b64(false, data@),
{
    STANDARD.encode(data)
}

/// `STANDARD.decode` of the crate `base64`: accepts exactly the strings that
/// the encoder writes (canonical padding, no stray bits in the last symbol).
#[verifier::external_body]
pub(crate) fn b64_decode(s: &str) -> (r: Option<Vec<u8>>)
    ensures
        match r {
            Some(v) => s@ == b64(false, v@),
            None => forall|v: Seq<u8>| s@ != #[trigger] b64(false, v),
        },
{
    STANDARD.decode(s).ok()
}

/// `URL_SAFE_NO_PAD.encode` of the crate `base64`: the URL-safe alphabet,
/// without padding.
#[verifier::external_body]
pub(crate) fn b64url_encode(data: &[u8]) -> (r: String)
    requires
        data@.len() <= usize::MAX / 4,
    ensures
        r@ == b64(true, data@),
{
    URL_SAFE_NO_PAD.encode(data)
}

/// `URL_SAFE_NO_PAD.decode` of the crate `base64`: accepts exactly the strings
/// that the encoder writes (no padding, no stray bits in the last symbol).
#[verifier::external_body]
pub(crate) fn b64url_decode(s: &str) -> (r: Option<Vec<u8>>)
    ensures
        match r {
            Some(v) => s@ == b64(true, v@),
            None => forall|v: Seq<u8>| s@ != #[trigger] b64(true, v),
        },
{
    URL_SAFE_NO_PAD.decode(s).ok()
}

proof fn lemma_b64_char_injective(url: bool, a: int, b: int)
    requires
        0 <= a < 64,
        0 <= b < 64,
        b64_char(url, a) == b64_char(url, b),
    ensures
        a == b,
{
}

proof fn lemma_b64_char_not_pad(url: bool, a: int)
    requires
        0 <= a < 64,
    ensures
        b64_char(url, a) != '=',
{
}

pub proof fn lemma_b64_len(url: bool, s: Seq<u8>)
    ensures
        url ==> b64(url, s).len() == (4 * s.len() + 2) / 3,
        !url ==> b64(url, s).len() == (s.len() + 2) / 3 * 4,
    decreases s.len(),
{
    if s.len() > 2 {
        lemma_b64_len(url, s.skip(3));
    }
}

/// Byte sequences are told apart by their base64 forms.
pub proof fn lemma_b64_injective(url: bool, x: Seq<u8>, y: Seq<u8>)
    requires
        b64(url, x) == b64(url, y),
    ensures
        x == y,
    decreases x.len(),
{
    lemma_b64_len(url, x);
    lemma_b64_len(url, y);
    let e = b64(url, x);
    let f = b64(url, y);
    if x.len() == 0 || y.len() == 0 {
        assert(x =~= y);
    } else {
        let (a, b, c) = (x[0] as int, x[1] as int, x[2] as int);
        let (k, l, m) = (y[0] as int, y[1] as int, y[2] as int);
        assert(e[0] == f[0] && e[1] == f[1]);
        assert(e[0] == b64_char(url, a / 4) && f[0] == b64_char(url, k / 4));
        lemma_b64_char_injective(url, a / 4, k / 4);
        let p = if x.len() == 1 {
            a % 4 * 16
        } else {
            a % 4 * 16 + b / 16
        };
        let q = if y.len() == 1 {
            k % 4 * 16
        } else {
            k % 4 * 16 + l / 16
        };
        assert(e[1] == b64_char(url, p) && f[1] == b64_char(url, q));
        lemma_b64_char_injective(url, p, q);
        assert(a % 4 == k % 4);
        assert(a == k);
        if x.len() == 1 || y.len() == 1 {
            if !url {
                if x.len() > 1 {
                    assert(f[2] == '=');
                    let t = if x.len() == 2 {
                        b % 16 * 4
                    } else {
                        b % 16 * 4 + c / 64
                    };
                    assert(e[2] == b64_char(url, t));
                    lemma_b64_char_not_pad(url, t);
                }
                if y.len() > 1 {
                    assert(e[2] == '=');
                    let t = if y.len() == 2 {
                        l % 16 * 4
                    } else {
                        l % 16 * 4 + m / 64
                    };
                    assert(f[2] == b64_char(url, t));
                    lemma_b64_char_not_pad(url, t);
                }
            }
            assert(x =~= y);
        } else {
            assert(b / 16 == l / 16);
            let t = if x.len() == 2 {
                b % 16 * 4
            } else {
                b % 16 * 4 + c / 64
            };
            let u = if y.len() == 2 {
                l % 16 * 4
            } else {
                l % 16 * 4 + m / 64
            };
            assert(e[2] == b64_char(url, t) && f[2] == b64_char(url, u));
            lemma_b64_char_injective(url, t, u);
            assert(b % 16 == l % 16);
            assert(b == l);
            if x.len() == 2 || y.len() == 2 {
                if !url {
                    if x.len() > 2 {
                        assert(f[3] == '=');
                        assert(e[3] == b64_char(url, c % 64));
                        lemma_b64_char_not_pad(url, c % 64);
                    }
                    if y.len() > 2 {
                        assert(e[3] == '=');
                        assert(f[3] == b64_char(url, m % 64));
                        lemma_b64_char_not_pad(url, m % 64);
                    }
                }
                assert(x =~= y);
            } else {
                assert(e[3] == b64_char(url, c % 64) && f[3] == b64_char(url, m % 64));
                lemma_b64_char_injective(url, c % 64, m % 64);
                assert(c == m);
                assert(e.skip(4) =~= b64(url, x.skip(3)));
                assert(f.skip(4) =~= b64(url, y.skip(3)));
                lemma_b64_injective(url, x.skip(3), y.skip(3));
                assert(x =~= seq![x[0], x[1], x[2]] + x.skip(3));
                assert(y =~= seq![y[0], y[1], y[2]] + y.skip(3));
            }
        }
    }
}

/// How one character stands inside a JSON string.
pub open spec fn json_escape(c: char) -> Seq<char> {
    if c == '"' || c == '\\' {
        seq!['\\', c]
    } else if c == '\u{8}' {
        seq!['\\', 'b']
    } else if c == '\t' {
        seq!['\\', 't']
    } else if c == '\n' {
        seq!['\\', 'n']
    } else if c == '\u{c}' {
        seq!['\\', 'f']
    } else if c == '\r' {
        seq!['\\', 'r']
    } else if c <= '\u{1f}' {
        seq!['\\', 'u', '0', '0', hex_digit(c as int / 16), hex_digit(c as int % 16)]
    } else {
        seq![c]
    }
}

/// The characters of a string, each as it stands inside a JSON string.
pub open spec fn json_escaped(s: Seq<char>) -> Seq<char>
    decreases s.len(),
{
    if s.len() == 0 {
        Seq::empty()
    } else {
        json_escaped(s.drop_last()) + json_escape(s.last())
    }
}

/// A JSON string: quoted and escaped.
pub open spec fn json_string(s: Seq<char>) -> Seq<char> {
    seq!['"'] + json_escaped(s) + seq!['"']
}

/// `serde_json::to_string` of a `str`, which cannot fail: quotes around the
/// string; the quote, the backslash and control characters below U+0020 are
/// escaped, by their short form where JSON has one.
#[verifier::external_body]
pub(crate) fn json_quote(s: &str) -> (r: String)
    ensures
        r@ == json_string(s@),
{
    serde_json::to_string(s).unwrap_or_default()
}

/// ASCII characters that stand for themselves inside a JSON string.
pub open spec fn is_plain(c: char) -> bool {
    ' ' <= c <= '~' && c != '"' && c != '\\'
}

pub open spec fn all_plain(s: Seq<char>) -> bool {
    forall|i: int| 0 <= i < s.len() ==> is_plain(#[trigger] s[i])
}

/// Plain characters are not escaped, and take one byte each.
pub proof fn lemma_plain_json(s: Seq<char>)
    requires
        all_plain(s),
    ensures
        json_escaped(s) == s,
        text::utf8_len(s) == s.len(),
        text::utf8_len(json_string(s)) == s.len() + 2,
    decreases s.len(),
{
    if s.len() > 0 {
        let t = s.drop_last();
        assert forall|i: int| 0 <= i < t.len() implies is_plain(#[trigger] t[i]) by {
            assert(t[i] == s[i]);
        }
        lemma_plain_json(t);
        assert(is_plain(s[s.len() - 1]));
        text::lemma_utf8_len_push(t, s.last());
        assert(t.push(s.last()) =~= s);
        assert(json_escaped(s) =~= s);
    } else {
        assert(json_escaped(s) =~= s);
    }
    text::lemma_utf8_len_concat(seq!['"'] + json_escaped(s), seq!['"']);
    text::lemma_utf8_len_concat(seq!['"'], json_escaped(s));
    text::lemma_utf8_len_one('"');
}

/// A JSON string takes at most six bytes for each character, and two quotes.
pub proof fn lemma_json_string_bytes(s: Seq<char>)
    ensures
        text::utf8_len(json_string(s)) <= 6 * s.len() + 2,
{
    lemma_json_escaped_bytes(s);
    text::lemma_utf8_len_concat(seq!['"'] + json_escaped(s), seq!['"']);
    text::lemma_utf8_len_concat(seq!['"'], json_escaped(s));
    text::lemma_utf8_len_one('"');
}

proof fn lemma_json_escaped_bytes(s: Seq<char>)
    ensures
        text::utf8_len(json_escaped(s)) <= 6 * s.len(),
    decreases s.len(),
{
    if s.len() > 0 {
        let c = s.last();
        let e = json_escape(c);
        lemma_json_escaped_bytes(s.drop_last());
        text::lemma_utf8_len_concat(json_escaped(s.drop_last()), e);
        if e.len() > 1 {
            assert forall|i: int| 0 <= i < e.len() implies #[trigger] e[i] <= '~' by {
                if c <= '\u{1f}' {
                    lemma_control_digits(c);
                }
            }
            lemma_ascii_bytes(e);
        } else {
            assert(e =~= seq![c]);
            text::lemma_utf8_len_one(c);
        }
    } else {
        text::lemma_utf8_len_bounds(json_escaped(s));
    }
}

/// How many bytes a character takes inside a JSON string.
pub fn json_width(c: char) -> (r: usize)
    ensures
        r == text::utf8_len(json_escape(c)),
        1 <= r <= 6,
{
    let ghost e = json_escape(c);
    if c == '"' || c == '\\' || c == '\u{8}' || c == '\t' || c == '\n' || c == '\u{c}' || c == '\r' {
        proof {
            lemma_ascii_bytes(e);
        }
        2
    } else if c <= '\u{1f}' {
        proof {
            lemma_control_digits(c);
            lemma_ascii_bytes(e);
        }
        6
    } else {
        proof {
            text::lemma_utf8_len_one(c);
        }
        text::width_of(c)
    }
}

/// The bytes of a JSON string grow with each character by what it takes.
pub proof fn lemma_json_string_push(s: Seq<char>, c: char)
    ensures
        text::utf8_len(json_string(s.push(c))) == text::utf8_len(json_string(s)) + text::utf8_len(
            json_escape(c),
        ),
{
    assert(s.push(c).drop_last() =~= s);
    lemma_json_string_len(s);
    lemma_json_string_len(s.push(c));
    text::lemma_utf8_len_concat(json_escaped(s), json_escape(c));
}

/// A JSON string takes two bytes more than its characters.
pub proof fn lemma_json_string_len(s: Seq<char>)
    ensures
        text::utf8_len(json_string(s)) == text::utf8_len(json_escaped(s)) + 2,
        s.len() == 0 ==> text::utf8_len(json_string(s)) == 2,
{
    text::lemma_utf8_len_concat(seq!['"'] + json_escaped(s), seq!['"']);
    text::lemma_utf8_len_concat(seq!['"'], json_escaped(s));
    text::lemma_utf8_len_one('"');
    if s.len() == 0 {
        text::lemma_utf8_len_bounds(json_escaped(s));
    }
}

pub open spec fn all_ascii(s: Seq<char>) -> bool {
    forall|i: int| 0 <= i < s.len() ==> #[trigger] s[i] <= '~'
}

/// ASCII characters take one byte each.
pub proof fn lemma_ascii_bytes(s: Seq<char>)
    requires
        all_ascii(s),
    ensures
        text::utf8_len(s) == s.len(),
    decreases s.len(),
{
    if s.len() > 0 {
        let t = s.drop_last();
        assert forall|i: int| 0 <= i < t.len() implies #[trigger] t[i] <= '~' by {
            assert(t[i] == s[i]);
        }
        lemma_ascii_bytes(t);
        assert(s[s.len() - 1] <= '~');
        text::lemma_utf8_len_push(t, s.last());
        assert(t.push(s.last()) =~= s);
    }
}

/// A base64 form stands for itself inside a JSON string.
pub proof fn lemma_b64_plain(url: bool, s: Seq<u8>)
    ensures
        all_plain(b64(url, s)),
    decreases s.len(),
{
    if s.len() > 2 {
        lemma_b64_plain(url, s.skip(3));
        let r = b64(url, s);
        let t = b64(url, s.skip(3));
        assert forall|i: int| 0 <= i < r.len() implies is_plain(#[trigger] r[i]) by {
            if i >= 4 {
                assert(r[i] == t[i - 4]);
            }
        }
    }
}

/// What `String::from_utf8_lossy` makes of a byte sequence.
pub uninterp spec fn utf8_lossy(b: Seq<u8>) -> Seq<char>;

/// `String::from_utf8_lossy`: valid UTF-8 is decoded; what replaces an invalid
/// sequence is named, not stated.
#[verifier::external_body]
pub(crate) fn lossy_string(b: &[u8]) -> (r: String)
    ensures
        r@ == utf8_lossy(b@),
        valid_utf8(b@) ==> r@ == decode_utf8(b@),
{
    String::from_utf8_lossy(b).into_owned()
}

} // verus!
