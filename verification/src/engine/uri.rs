//! The pairing link that a QR code carries.

use vstd::prelude::*;
use vstd::string::*;
use vstd::utf8::*;
use crate::codec;
use crate::proto::DEFAULT_TCP_PORT;
use crate::text;
use crate::util;
use crate::util::IpAddr;

verus! {

/// What every pairing link starts with.
pub const PREFIX: &'static str = "syncmob://pair?";

/// What a pairing link points at.
#[derive(Debug, Clone)]
pub struct PairingTarget {
    pub public_key: Vec<u8>,
    pub host: IpAddr,
    pub port: u16,
    pub name: String,
}

/// Why a string is no pairing link.
#[derive(Clone, Copy, PartialEq, Eq, Debug, Structural)]
pub enum PairingError {
    NotALink,
    NoKey,
    KeyLength,
    NoHost,
}

impl PairingError {
    /// The error in words.
    pub fn text(&self) -> (r: String)
        ensures
            r@ == match *self {
                PairingError::NotALink => "не похоже на ссылку сопряжения SyncMob"@,
                PairingError::NoKey => "в ссылке нет корректного ключа"@,
                PairingError::KeyLength => "некорректная длина ключа"@,
                PairingError::NoHost => "в ссылке нет адреса"@,
            },
    {
        match self {
            PairingError::NotALink => "не похоже на ссылку сопряжения SyncMob".to_string(),
            PairingError::NoKey => "в ссылке нет корректного ключа".to_string(),
            PairingError::KeyLength => "некорректная длина ключа".to_string(),
            PairingError::NoHost => "в ссылке нет адреса".to_string(),
        }
    }
}

/// Bytes that stand for themselves in a link: ASCII letters and digits, and the
/// four marks `-`, `_`, `.` and `~`.
pub open spec fn unreserved(b: u8) -> bool {
    ||| 48 <= b <= 57
    ||| 65 <= b <= 90
    ||| 97 <= b <= 122
    ||| b == 45
    ||| b == 95
    ||| b == 46
    ||| b == 126
}

/// How one byte stands in a link.
pub open spec fn escape_byte(b: u8) -> Seq<char> {
    if unreserved(b) {
        seq![b as char]
    } else {
        seq![
            '%',
            text::upper(codec::hex_digit(b as int / 16)),
            text::upper(codec::hex_digit(b as int % 16)),
        ]
    }
}

/// How some bytes stand in a link.
pub open spec fn escape_bytes(b: Seq<u8>) -> Seq<char>
    decreases b.len(),
{
    if b.len() == 0 {
        Seq::empty()
    } else {
        escape_bytes(b.drop_last()) + escape_byte(b.last())
    }
}

/// How a string stands in a link.
pub open spec fn escaped(s: Seq<char>) -> Seq<char> {
    escape_bytes(encode_utf8(s))
}

/// See [`escaped`].
pub fn url_escape(s: &str) -> (r: String)
    ensures
        r@ == escaped(s@),
{
    let b = s.as_bytes();
    let mut r = String::new();
    let mut i: usize = 0;
    while i < b.len()
        invariant
            i <= b@.len(),
            r@ == escape_bytes(b@.take(i as int)),
        decreases b.len() - i,
    {
        proof {
            assert(b@.take(i + 1).drop_last() =~= b@.take(i as int));
        }
        let x: u8 = b[i];
        let ghost before = r@;
        if (x >= 48 && x <= 57) || (x >= 65 && x <= 90) || (x >= 97 && x <= 122) || x == 45 || x
            == 95 || x == 46 || x == 126 {
            r.push(x as char);
        } else {
            r.push('%');
            r.push(upper_digit(x / 16));
            r.push(upper_digit(x % 16));
        }
        proof {
            assert(r@ =~= before + escape_byte(x));
        }
        i = i + 1;
    }
    proof {
        assert(b@.take(b@.len() as int) =~= b@);
    }
    r
}

fn upper_digit(n: u8) -> (c: char)
    requires
        n < 16,
    ensures
        c == text::upper(codec::hex_digit(n as int)),
{
    if n < 10 {
        (48u8 + n) as char
    } else {
        (55u8 + n) as char
    }
}

/// The value of a hexadecimal digit of either case.
pub open spec fn nibble(b: u8) -> Option<u8> {
    if 48 <= b <= 57 {
        Some((b - 48) as u8)
    } else if 65 <= b <= 70 {
        Some((b - 55) as u8)
    } else if 97 <= b <= 102 {
        Some((b - 87) as u8)
    } else {
        None
    }
}

/// The byte that two characters after a percent sign stand for: two hexadecimal
/// digits, or a plus sign and one.
pub open spec fn escape_value(a: u8, b: u8) -> Option<u8> {
    match (nibble(a), nibble(b)) {
        (Some(h), Some(l)) => Some((h * 16 + l) as u8),
        (None, Some(l)) => if a == 43 {
            Some(l)
        } else {
            None
        },
        _ => None,
    }
}

/// The bytes that a link's text stands for. A percent sign that starts no
/// escape stands for itself.
pub open spec fn unescape_bytes(b: Seq<u8>) -> Seq<u8>
    decreases b.len(),
{
    if b.len() == 0 {
        Seq::empty()
    } else if b[0] == 37 && b.len() > 2 && escape_value(b[1], b[2]) is Some {
        seq![escape_value(b[1], b[2])->0] + unescape_bytes(b.skip(3))
    } else {
        seq![b[0]] + unescape_bytes(b.skip(1))
    }
}

fn nibble_of(b: u8) -> (r: Option<u8>)
    ensures
        r == nibble(b),
{
    if b >= 48 && b <= 57 {
        Some(b - 48)
    } else if b >= 65 && b <= 70 {
        Some(b - 55)
    } else if b >= 97 && b <= 102 {
        Some(b - 87)
    } else {
        None
    }
}

fn escape_value_of(a: u8, b: u8) -> (r: Option<u8>)
    ensures
        r == escape_value(a, b),
{
    match (nibble_of(a), nibble_of(b)) {
        (Some(h), Some(l)) => Some(h * 16 + l),
        (None, Some(l)) => if a == 43 {
            Some(l)
        } else {
            None
        },
        _ => None,
    }
}

/// The string that a link's text stands for. What is not UTF-8 after
/// unescaping is replaced.
pub fn url_unescape(s: &str) -> (r: String)
    ensures
        r@ == codec::utf8_lossy(unescape_bytes(encode_utf8(s@))),
        valid_utf8(unescape_bytes(encode_utf8(s@))) ==> r@ == decode_utf8(
            unescape_bytes(encode_utf8(s@)),
        ),
{
    let b = s.as_bytes();
    let mut out: Vec<u8> = Vec::new();
    let mut i: usize = 0;
    proof {
        assert(b@.skip(0) =~= b@);
    }
    while i < b.len()
        invariant
            i <= b@.len(),
            out@ + unescape_bytes(b@.skip(i as int)) == unescape_bytes(b@),
        decreases b.len() - i,
    {
        let ghost rest = b@.skip(i as int);
        if b[i] == 37 && b.len() - i > 2 {
            if let Some(v) = escape_value_of(b[i + 1], b[i + 2]) {
                proof {
                    assert(rest.skip(3) =~= b@.skip(i + 3));
                    assert(out@.push(v) + unescape_bytes(b@.skip(i + 3)) =~= out@
                        + unescape_bytes(rest));
                }
                out.push(v);
                i = i + 3;
                continue ;
            }
        }
        proof {
            assert(rest.skip(1) =~= b@.skip(i + 1));
            assert(out@.push(b@[i as int]) + unescape_bytes(b@.skip(i + 1)) =~= out@
                + unescape_bytes(rest));
        }
        out.push(b[i]);
        i = i + 1;
    }
    proof {
        assert(b@.skip(i as int) =~= Seq::<u8>::empty());
        assert(out@ =~= unescape_bytes(b@));
    }
    codec::lossy_string(out.as_slice())
}

/// Escapes consist of ASCII characters.
proof fn lemma_escape_ascii(b: Seq<u8>)
    ensures
        is_ascii_chars(escape_bytes(b)),
        forall|i: int|
            0 <= i < escape_bytes(b).len() ==> #[trigger] escape_bytes(b)[i] != '&' && escape_bytes(
                b,
            )[i] != '=',
    decreases b.len(),
{
    if b.len() > 0 {
        lemma_escape_ascii(b.drop_last());
        let p = escape_bytes(b.drop_last());
        let x = b.last();
        let e = escape_byte(x);
        lemma_escape_byte(x);
        let r = escape_bytes(b);
        assert forall|i: int| 0 <= i < r.len() implies 0 <= #[trigger] r[i] as nat && (r[i] as nat)
            < 128 && r[i] != '&' && r[i] != '=' by {
            if i < p.len() {
                assert(r[i] == p[i]);
            } else {
                assert(r[i] == e[i - p.len()]);
            }
        }
    }
}

proof fn lemma_escape_byte(x: u8)
    ensures
        forall|i: int|
            0 <= i < escape_byte(x).len() ==> (#[trigger] escape_byte(x)[i] as nat) < 128
                && escape_byte(x)[i] != '&' && escape_byte(x)[i] != '=',
{
    if !unreserved(x) {
        lemma_upper_digit(x as int / 16);
        lemma_upper_digit(x as int % 16);
    }
}

proof fn lemma_upper_digit(n: int)
    requires
        0 <= n < 16,
    ensures
        ({
            let c = text::upper(codec::hex_digit(n));
            &&& ('0' <= c <= '9' || 'A' <= c <= 'F')
            &&& nibble(c as u8) == Some(n as u8)
        }),
{
}

/// The bytes of an escaped text are its characters.
pub open spec fn ascii_bytes(s: Seq<char>) -> Seq<u8> {
    Seq::new(s.len(), |i: int| s[i] as u8)
}

/// Unescaping goes on behind what it has taken.
proof fn lemma_unescape_step(head: Seq<u8>, x: u8, rest: Seq<u8>)
    requires
        head == ascii_bytes(escape_byte(x)),
    ensures
        unescape_bytes(head + rest) == seq![x] + unescape_bytes(rest),
{
    let b = head + rest;
    if unreserved(x) {
        assert(head =~= seq![x]);
        assert(b[0] == x);
        assert(b.skip(1) =~= rest);
    } else {
        lemma_upper_digit(x as int / 16);
        lemma_upper_digit(x as int % 16);
        assert(b[0] == 37);
        assert(b[1] == head[1] && b[2] == head[2]);
        assert(nibble(b[1]) == Some((x as int / 16) as u8));
        assert(nibble(b[2]) == Some((x as int % 16) as u8));
        assert(escape_value(b[1], b[2]) == Some(x));
        assert(b.skip(3) =~= rest);
    }
}

proof fn lemma_unescape_escaped(b: Seq<u8>, rest: Seq<u8>)
    ensures
        unescape_bytes(ascii_bytes(escape_bytes(b)) + rest) == b + unescape_bytes(rest),
    decreases b.len(),
{
    if b.len() == 0 {
        assert(ascii_bytes(escape_bytes(b)) + rest =~= rest);
        assert(b + unescape_bytes(rest) =~= unescape_bytes(rest));
    } else {
        let p = b.drop_last();
        let x = b.last();
        let head = ascii_bytes(escape_byte(x));
        lemma_unescape_escaped(p, head + rest);
        lemma_unescape_step(head, x, rest);
        assert(ascii_bytes(escape_bytes(b)) + rest =~= ascii_bytes(escape_bytes(p)) + (head
            + rest));
        assert(p + (seq![x] + unescape_bytes(rest)) =~= b + unescape_bytes(rest));
    }
}

/// Unescaping an escaped string gives the string back, whatever it holds.
pub proof fn law_unescape_inverts_escape(s: Seq<char>)
    ensures
        unescape_bytes(encode_utf8(escaped(s))) == encode_utf8(s),
        valid_utf8(encode_utf8(s)),
        decode_utf8(encode_utf8(s)) == s,
{
    let b = encode_utf8(s);
    lemma_escape_ascii(b);
    is_ascii_chars_encode_utf8(escaped(s));
    let e = encode_utf8(escaped(s));
    assert(e =~= ascii_bytes(escape_bytes(b)));
    lemma_unescape_escaped(b, Seq::empty());
    assert(ascii_bytes(escape_bytes(b)) + Seq::<u8>::empty() =~= e);
    assert(b + unescape_bytes(Seq::<u8>::empty()) =~= b);
    encode_utf8_valid_utf8(s);
    encode_utf8_decode_utf8(s);
}

/// The index of the first occurrence of a character, or the length.
pub open spec fn first_of(s: Seq<char>, c: char) -> int
    decreases s.len(),
{
    if s.len() == 0 || s[0] == c {
        0
    } else {
        1 + first_of(s.skip(1), c)
    }
}

/// A parameter: what stands before the first equals sign, and what behind it.
pub open spec fn param(s: Seq<char>) -> (Seq<char>, Seq<char>) {
    let i = first_of(s, '=');
    if i < s.len() {
        (s.take(i), s.skip(i + 1))
    } else {
        (s, Seq::empty())
    }
}

/// The parameters of a link: what stands between its ampersands.
pub open spec fn params(s: Seq<char>) -> Seq<(Seq<char>, Seq<char>)>
    decreases s.len(),
{
    let i = first_of(s, '&');
    if 0 <= i < s.len() {
        seq![param(s.take(i))] + params(s.skip(i + 1))
    } else {
        seq![param(s)]
    }
}

/// The value of the last parameter with a name, if there is one.
pub open spec fn last_value(ps: Seq<(Seq<char>, Seq<char>)>, name: Seq<char>) -> Option<Seq<char>>
    decreases ps.len(),
{
    if ps.len() == 0 {
        None
    } else if ps.last().0 == name {
        Some(ps.last().1)
    } else {
        last_value(ps.drop_last(), name)
    }
}

/// The rest of a link behind its prefix, if it has the prefix.
pub open spec fn link_rest(uri: Seq<char>) -> Option<Seq<char>> {
    if uri.len() >= PREFIX@.len() && uri.take(PREFIX@.len() as int) == PREFIX@ {
        Some(uri.skip(PREFIX@.len() as int))
    } else {
        None
    }
}

/// The value of a parameter of a link, if the link has it; the last one where
/// it occurs more often.
pub open spec fn link_value(uri: Seq<char>, name: Seq<char>) -> Option<Seq<char>> {
    match link_rest(uri) {
        Some(rest) => last_value(params(rest), name),
        None => None,
    }
}

/// The number that decimal digits write.
pub open spec fn dec_value(s: Seq<char>) -> nat
    decreases s.len(),
{
    if s.len() == 0 {
        0
    } else {
        dec_value(s.drop_last()) * 10 + (s.last() as u32 - '0' as u32) as nat
    }
}

pub open spec fn all_digits(s: Seq<char>) -> bool {
    s.len() > 0 && forall|i: int| 0 <= i < s.len() ==> '0' <= #[trigger] s[i] <= '9'
}

/// The number that a string writes in decimal, with or without a plus sign, if
/// it is at most `max`.
pub open spec fn number_value(s: Seq<char>, max: nat) -> Option<nat> {
    let d = if s.len() > 0 && s[0] == '+' {
        s.skip(1)
    } else {
        s
    };
    if all_digits(d) && dec_value(d) <= max {
        Some(dec_value(d))
    } else {
        None
    }
}

/// The port that a string writes in decimal, with or without a plus sign.
pub open spec fn port_value(s: Seq<char>) -> Option<u16> {
    let d = if s.len() > 0 && s[0] == '+' {
        s.skip(1)
    } else {
        s
    };
    if all_digits(d) && dec_value(d) <= 65535 {
        Some(dec_value(d) as u16)
    } else {
        None
    }
}

/// The port of a link: the one that it names, unless that is none or zero.
pub open spec fn link_port(uri: Seq<char>) -> u16 {
    match link_value(uri, "port"@) {
        Some(v) => match port_value(v) {
            Some(p) => if p > 0 {
                p
            } else {
                DEFAULT_TCP_PORT
            },
            None => DEFAULT_TCP_PORT,
        },
        None => DEFAULT_TCP_PORT,
    }
}

/// Whether some bytes are the key of a link.
pub open spec fn is_link_key(uri: Seq<char>, key: Seq<u8>) -> bool {
    link_value(uri, "pk"@) == Some(codec::b64(true, key))
}

proof fn lemma_first_of(s: Seq<char>, c: char)
    ensures
        0 <= first_of(s, c) <= s.len(),
        first_of(s, c) < s.len() ==> s[first_of(s, c)] == c,
        forall|i: int| 0 <= i < first_of(s, c) ==> #[trigger] s[i] != c,
    decreases s.len(),
{
    if s.len() > 0 && s[0] != c {
        lemma_first_of(s.skip(1), c);
        assert forall|i: int| 0 <= i < first_of(s, c) implies #[trigger] s[i] != c by {
            if i > 0 {
                assert(s[i] == s.skip(1)[i - 1]);
            }
        }
    }
}

/// The first occurrence is the one before which there is none.
proof fn lemma_first_of_at(s: Seq<char>, c: char, k: int)
    requires
        0 <= k <= s.len(),
        k < s.len() ==> s[k] == c,
        forall|i: int| 0 <= i < k ==> #[trigger] s[i] != c,
    ensures
        first_of(s, c) == k,
{
    lemma_first_of(s, c);
    let f = first_of(s, c);
    if f < k {
        assert(s[f] != c);
    }
    if k < f {
        assert(s[k] != c);
    }
}

/// The index of the first `c` in `v[from..to]`, or `to`.
fn find_char(v: &Vec<char>, from: usize, to: usize, c: char) -> (r: usize)
    requires
        from <= to <= v@.len(),
    ensures
        from <= r <= to,
        r - from == first_of(v@.subrange(from as int, to as int), c),
{
    let mut i: usize = from;
    let ghost s = v@.subrange(from as int, to as int);
    while i < to && v[i] != c
        invariant
            from <= i <= to <= v@.len(),
            s == v@.subrange(from as int, to as int),
            forall|j: int| 0 <= j < i - from ==> #[trigger] s[j] != c,
        decreases to - i,
    {
        proof {
            assert(s[i - from] == v@[i as int]);
        }
        i = i + 1;
    }
    proof {
        if i < to {
            assert(s[i - from] == v@[i as int]);
        }
        lemma_first_of_at(s, c, i - from);
    }
    i
}

/// A list of parameters with the given names and values.
pub open spec fn holds_params(
    v: Seq<(String, String)>,
    ps: Seq<(Seq<char>, Seq<char>)>,
) -> bool {
    &&& v.len() == ps.len()
    &&& forall|i: int|
        0 <= i < v.len() ==> (#[trigger] v[i]).0@ == ps[i].0 && v[i].1@ == ps[i].1
}

/// The parameters of a link; see [`params`].
pub fn split_params(rest: &str) -> (r: Vec<(String, String)>)
    ensures
        holds_params(r@, params(rest@)),
{
    let v = text::to_chars(rest);
    let n: usize = v.len();
    let mut r: Vec<(String, String)> = Vec::new();
    let mut from: usize = 0;
    let ghost mut done: Seq<(Seq<char>, Seq<char>)> = Seq::empty();
    proof {
        assert(v@.subrange(0, n as int) =~= v@);
        assert(done + params(v@) =~= params(v@));
    }
    loop
        invariant
            from <= n == v@.len(),
            v@ == rest@,
            holds_params(r@, done),
            params(rest@) == done + params(v@.subrange(from as int, n as int)),
        decreases n - from,
    {
        let at: usize = find_char(&v, from, n, '&');
        let eq: usize = find_char(&v, from, at, '=');
        let ghost s = v@.subrange(from as int, n as int);
        let ghost p = v@.subrange(from as int, at as int);
        let key = text::chars_to_string(v.as_slice(), from, eq);
        let value = if eq < at {
            text::chars_to_string(v.as_slice(), eq + 1, at)
        } else {
            String::new()
        };
        proof {
            lemma_first_of(s, '&');
            assert(p =~= s.take(at - from));
            assert(p.take(eq - from) =~= v@.subrange(from as int, eq as int));
            if eq < at {
                assert(p.skip(eq - from + 1) =~= v@.subrange(eq + 1, at as int));
            } else {
                assert(p.take(eq - from) =~= p);
            }
            assert(key@ == param(p).0 && value@ == param(p).1);
        }
        r.push((key, value));
        if at == n {
            proof {
                assert(p =~= s);
                assert(done + seq![param(s)] =~= done.push(param(p)));
                assert(holds_params(r@, params(rest@)));
            }
            return r;
        }
        proof {
            assert(s.skip(at - from + 1) =~= v@.subrange(at + 1, n as int));
            assert(done + (seq![param(p)] + params(v@.subrange(at + 1, n as int))) =~= done.push(
                param(p),
            ) + params(v@.subrange(at + 1, n as int)));
            done = done.push(param(p));
        }
        from = at + 1;
    }
}

/// The text of a link behind its prefix.
fn rest_of(uri: &str) -> (r: Option<String>)
    ensures
        match r {
            Some(rest) => link_rest(uri@) == Some(rest@),
            None => link_rest(uri@) is None,
        },
{
    let v = text::to_chars(uri);
    let p = text::to_chars(PREFIX);
    if v.len() < p.len() {
        return None;
    }
    let head = text::chars_to_string(v.as_slice(), 0, p.len());
    proof {
        assert(v@.subrange(0, p@.len() as int) =~= uri@.take(p@.len() as int));
        assert(v@.subrange(p@.len() as int, v@.len() as int) =~= uri@.skip(p@.len() as int));
    }
    if !text::str_eq(head.as_str(), PREFIX) {
        return None;
    }
    Some(text::chars_to_string(v.as_slice(), p.len(), v.len()))
}

/// The index behind the last parameter with a name, or 0.
fn last_index(v: &Vec<(String, String)>, name: &str) -> (r: usize)
    ensures
        r <= v@.len(),
        r > 0 ==> v@[r - 1].0@ == name@,
        forall|i: int| r <= i < v@.len() ==> (#[trigger] v@[i]).0@ != name@,
{
    let mut i: usize = v.len();
    while i > 0
        invariant
            i <= v@.len(),
            forall|j: int| i <= j < v@.len() ==> (#[trigger] v@[j]).0@ != name@,
        decreases i,
    {
        if text::str_eq(v[i - 1].0.as_str(), name) {
            return i;
        }
        i = i - 1;
    }
    0
}

pub proof fn lemma_last_value(ps: Seq<(Seq<char>, Seq<char>)>, name: Seq<char>, k: int)
    requires
        0 <= k <= ps.len(),
        k > 0 ==> ps[k - 1].0 == name,
        forall|i: int| k <= i < ps.len() ==> (#[trigger] ps[i]).0 != name,
    ensures
        last_value(ps, name) == if k > 0 {
            Some(ps[k - 1].1)
        } else {
            None
        },
    decreases ps.len(),
{
    if k < ps.len() {
        assert(ps[ps.len() - 1].0 != name);
        let t = ps.drop_last();
        assert forall|i: int| k <= i < t.len() implies (#[trigger] t[i]).0 != name by {
            assert(t[i] == ps[i]);
        }
        lemma_last_value(t, name, k);
    }
}

/// The value of the last parameter with a name; see [`last_value`].
fn find_value(v: &Vec<(String, String)>, name: &str, Ghost(ps): Ghost<Seq<(Seq<char>, Seq<char>)>>) -> (r: Option<
    String,
>)
    requires
        holds_params(v@, ps),
    ensures
        match r {
            Some(s) => last_value(ps, name@) == Some(s@),
            None => last_value(ps, name@) is None,
        },
{
    let k: usize = last_index(v, name);
    proof {
        assert forall|i: int| k <= i < ps.len() implies (#[trigger] ps[i]).0 != name@ by {
            assert(v@[i].0@ == ps[i].0);
        }
        if k > 0 {
            assert(v@[k - 1].0@ == ps[k - 1].0);
        }
        lemma_last_value(ps, name@, k as int);
    }
    if k > 0 {
        Some(v[k - 1].1.clone())
    } else {
        None
    }
}

/// The text of the address that a link names, for the caller to read.
pub fn pairing_host(uri: &str) -> (r: Option<String>)
    ensures
        match r {
            Some(h) => link_value(uri@, "host"@) == Some(h@),
            None => link_value(uri@, "host"@) is None,
        },
{
    let rest = match rest_of(uri) {
        Some(rest) => rest,
        None => return None,
    };
    let ps = split_params(rest.as_str());
    find_value(&ps, "host", Ghost(params(rest@)))
}

/// The number that a string writes, if it is at most `max`; see
/// [`number_value`].
pub fn parse_number(s: &str, max: u64) -> (r: Option<u64>)
    ensures
        match r {
            Some(n) => number_value(s@, max as nat) == Some(n as nat),
            None => number_value(s@, max as nat) is None,
        },
{
    let v = text::to_chars(s);
    let from: usize = if v.len() > 0 && v[0] == '+' {
        1
    } else {
        0
    };
    let ghost d = v@.skip(from as int);
    proof {
        assert(from == 0 ==> d =~= v@);
        assert(d.take(0) =~= Seq::<char>::empty());
    }
    if from == v.len() {
        return None;
    }
    let mut n: u128 = 0;
    let mut i: usize = from;
    let mut fits = true;
    while i < v.len()
        invariant
            from <= i <= v@.len(),
            d == v@.skip(from as int),
            d == if s@.len() > 0 && s@[0] == '+' {
                s@.skip(1)
            } else {
                s@
            },
            forall|j: int| 0 <= j < i - from ==> '0' <= #[trigger] d[j] <= '9',
            fits ==> n == dec_value(d.take(i - from)) && n <= max,
            !fits ==> dec_value(d.take(i - from)) > max,
        decreases v.len() - i,
    {
        let c = v[i];
        proof {
            assert(d[i - from] == c);
            assert(d.take(i - from + 1).drop_last() =~= d.take(i - from));
        }
        if !(c >= '0' && c <= '9') {
            return None;
        }
        if fits {
            n = n * 10 + (c as u32 - 48) as u128;
            if n > max as u128 {
                fits = false;
            }
        }
        i = i + 1;
    }
    proof {
        assert(d.take(d.len() as int) =~= d);
    }
    if fits {
        Some(n as u64)
    } else {
        None
    }
}

/// The port that a string writes; see [`port_value`].
pub fn parse_port(s: &str) -> (r: Option<u16>)
    ensures
        r == port_value(s@),
{
    match parse_number(s, 65535) {
        Some(n) => Some(n as u16),
        None => None,
    }
}

/// Parse `syncmob://pair?v=1&pk=..&host=..&port=..&name=..`.
///
/// Strict on purpose: a malformed or truncated QR scan must not silently
/// degrade into "connect to whatever and trust it". `host` is what the text
/// from [`pairing_host`] was read as, if it is an address.
pub fn parse_pairing_uri(uri: &str, host: Option<IpAddr>) -> (r: Result<
    PairingTarget,
    PairingError,
>)
    ensures
        match r {
            Ok(t) => {
                &&& link_rest(uri@) is Some
                &&& is_link_key(uri@, t.public_key@)
                &&& t.public_key@.len() == 32
                &&& host == Some(t.host)
                &&& t.port == link_port(uri@)
                &&& match link_value(uri@, "name"@) {
                    Some(v) => exists|name: Seq<char>|
                        {
                            &&& t.name@ == #[trigger] util::clamped(name, 64)
                            &&& name == codec::utf8_lossy(unescape_bytes(encode_utf8(v)))
                            &&& valid_utf8(unescape_bytes(encode_utf8(v))) ==> name == decode_utf8(
                                unescape_bytes(encode_utf8(v)),
                            )
                        },
                    None => t.name@.len() == 0,
                }
            },
            Err(PairingError::NotALink) => link_rest(uri@) is None,
            Err(PairingError::NoKey) => link_rest(uri@) is Some && forall|k: Seq<u8>|
                !#[trigger] is_link_key(uri@, k),
            Err(PairingError::KeyLength) => exists|k: Seq<u8>|
                k.len() != 32 && #[trigger] is_link_key(uri@, k),
            Err(PairingError::NoHost) => host is None && exists|k: Seq<u8>|
                k.len() == 32 && #[trigger] is_link_key(uri@, k),
        },
{
    let rest = match rest_of(uri) {
        Some(rest) => rest,
        None => return Err(PairingError::NotALink),
    };
    let ps = split_params(rest.as_str());
    let ghost all = params(rest@);
    let pk = match find_value(&ps, "pk", Ghost(all)) {
        Some(v) => codec::b64url_decode(v.as_str()),
        None => None,
    };
    let pk = match pk {
        Some(pk) => pk,
        None => return Err(PairingError::NoKey),
    };
    proof {
        assert(is_link_key(uri@, pk@));
    }
    if pk.len() != 32 {
        return Err(PairingError::KeyLength);
    }
    let host = match host {
        Some(h) => h,
        None => return Err(PairingError::NoHost),
    };
    let port: u16 = match find_value(&ps, "port", Ghost(all)) {
        Some(v) => match parse_port(v.as_str()) {
            Some(p) => if p > 0 {
                p
            } else {
                DEFAULT_TCP_PORT
            },
            None => DEFAULT_TCP_PORT,
        },
        None => DEFAULT_TCP_PORT,
    };
    let name = match find_value(&ps, "name", Ghost(all)) {
        Some(v) => {
            let plain = url_unescape(v.as_str());
            util::clamp_str(plain.as_str(), 64)
        },
        None => String::new(),
    };
    Ok(PairingTarget { public_key: pk, host, port, name })
}

/// An IPv4 address in dotted decimal.
pub open spec fn dotted(addr: u32) -> Seq<char> {
    text::decimal(util::octet(addr, 0) as nat) + "."@ + text::decimal(
        util::octet(addr, 1) as nat,
    ) + "."@ + text::decimal(util::octet(addr, 2) as nat) + "."@ + text::decimal(
        util::octet(addr, 3) as nat,
    )
}

/// See [`dotted`].
pub fn ipv4_text(addr: u32) -> (r: String)
    ensures
        r@ == dotted(addr),
{
    let mut r = text::decimal_text((addr / 0x100_0000) as u64);
    r.append(".");
    r.append(text::decimal_text((addr / 0x1_0000 % 0x100) as u64).as_str());
    r.append(".");
    r.append(text::decimal_text((addr / 0x100 % 0x100) as u64).as_str());
    r.append(".");
    r.append(text::decimal_text((addr % 0x100) as u64).as_str());
    r
}

/// The link that points at a device.
pub open spec fn link(pk: Seq<u8>, port: u16, host: Seq<char>, name: Seq<char>) -> Seq<char> {
    "syncmob://pair?v=1&pk="@ + codec::b64(true, pk) + "&port="@ + text::decimal(port as nat)
        + "&host="@ + host + "&name="@ + escaped(name)
}

/// The address that a link names: ours, or nothing in particular.
pub open spec fn link_host(addr: Option<u32>) -> Seq<char> {
    match addr {
        Some(a) => dotted(a),
        None => "0.0.0.0"@,
    }
}

/// The link that points at a device; see [`link`].
pub fn pairing_link(pk: &[u8], port: u16, addr: Option<u32>, name: &str) -> (r: String)
    requires
        pk@.len() <= usize::MAX / 4,
    ensures
        r@ == link(pk@, port, link_host(addr), name@),
{
    let mut r = "syncmob://pair?v=1&pk=".to_string();
    r.append(codec::b64url_encode(pk).as_str());
    r.append("&port=");
    r.append(text::decimal_text(port as u64).as_str());
    r.append("&host=");
    match addr {
        Some(a) => r.append(ipv4_text(a).as_str()),
        None => r.append("0.0.0.0"),
    }
    r.append("&name=");
    r.append(url_escape(name).as_str());
    r
}

/// No ampersand occurs.
pub open spec fn one_param(s: Seq<char>) -> bool {
    forall|i: int| 0 <= i < s.len() ==> #[trigger] s[i] != '&'
}

proof fn lemma_params_cons(a: Seq<char>, b: Seq<char>)
    requires
        one_param(a),
    ensures
        params(a.push('&') + b) == seq![param(a)] + params(b),
{
    let s = a.push('&') + b;
    assert forall|i: int| 0 <= i < a.len() implies #[trigger] s[i] != '&' by {
        assert(s[i] == a[i]);
    }
    assert(s[a.len() as int] == '&');
    lemma_first_of_at(s, '&', a.len() as int);
    assert(s.take(a.len() as int) =~= a);
    assert(s.skip(a.len() as int + 1) =~= b);
}

/// The parameters of two texts with an ampersand between them are those of both.
pub proof fn lemma_params_concat(a: Seq<char>, b: Seq<char>)
    ensures
        params(a.push('&') + b) == params(a) + params(b),
    decreases a.len(),
{
    let s = a.push('&') + b;
    let i = first_of(a, '&');
    lemma_first_of(a, '&');
    if i < a.len() {
        assert forall|j: int| 0 <= j < i implies #[trigger] s[j] != '&' by {
            assert(s[j] == a[j]);
        }
        assert(s[i] == '&');
        lemma_first_of_at(s, '&', i);
        let rest = a.skip(i + 1);
        assert(s.take(i) =~= a.take(i));
        assert(s.skip(i + 1) =~= rest.push('&') + b);
        lemma_params_concat(rest, b);
        assert(seq![param(a.take(i))] + (params(rest) + params(b)) =~= seq![param(a.take(i))]
            + params(rest) + params(b));
    } else {
        lemma_params_cons(a, b);
    }
}

/// A text without ampersands is one parameter, which is split at its first
/// equals sign.
pub proof fn lemma_one_param(key: Seq<char>, value: Seq<char>)
    requires
        one_param(key),
        one_param(value),
        forall|i: int| 0 <= i < key.len() ==> #[trigger] key[i] != '=',
    ensures
        params(key.push('=') + value) == seq![(key, value)],
{
    lemma_glue(key, value);
    lemma_param(key, value);
    lemma_params_one(key.push('=') + value);
}

/// Text in which nothing is escaped stands for itself.
pub proof fn lemma_nothing_escaped(b: Seq<u8>)
    requires
        forall|i: int| 0 <= i < b.len() ==> #[trigger] b[i] != 37,
    ensures
        unescape_bytes(b) == b,
    decreases b.len(),
{
    if b.len() > 0 {
        let t = b.skip(1);
        assert forall|i: int| 0 <= i < t.len() implies #[trigger] t[i] != 37 by {
            assert(t[i] == b[i + 1]);
        }
        lemma_nothing_escaped(t);
        assert(seq![b[0]] + t =~= b);
    }
}

/// What stands in an escaped text: letters, digits, four marks and the percent
/// sign.
pub proof fn lemma_escaped_chars(b: Seq<u8>, i: int)
    requires
        0 <= i < escape_bytes(b).len(),
    ensures
        ({
            let c = escape_bytes(b)[i];
            ||| 'a' <= c <= 'z'
            ||| 'A' <= c <= 'Z'
            ||| '0' <= c <= '9'
            ||| c == '-'
            ||| c == '_'
            ||| c == '.'
            ||| c == '~'
            ||| c == '%'
        }),
    decreases b.len(),
{
    let p = escape_bytes(b.drop_last());
    if i < p.len() {
        lemma_escaped_chars(b.drop_last(), i);
    } else {
        let x = b.last();
        if !unreserved(x) {
            lemma_upper_digit(x as int / 16);
            lemma_upper_digit(x as int % 16);
        }
        assert(escape_bytes(b)[i] == escape_byte(x)[i - p.len()]);
    }
}

proof fn lemma_params_one(a: Seq<char>)
    requires
        one_param(a),
    ensures
        params(a) == seq![param(a)],
{
    lemma_first_of_at(a, '&', a.len() as int);
}

proof fn lemma_param(key: Seq<char>, value: Seq<char>)
    requires
        forall|i: int| 0 <= i < key.len() ==> #[trigger] key[i] != '=',
    ensures
        param(key.push('=') + value) == (key, value),
{
    let s = key.push('=') + value;
    assert forall|i: int| 0 <= i < key.len() implies #[trigger] s[i] != '=' by {
        assert(s[i] == key[i]);
    }
    assert(s[key.len() as int] == '=');
    lemma_first_of_at(s, '=', key.len() as int);
    assert(s.take(key.len() as int) =~= key);
    assert(s.skip(key.len() as int + 1) =~= value);
}

pub proof fn lemma_dec_value(n: nat)
    ensures
        dec_value(text::decimal(n)) == n,
        all_digits(text::decimal(n)),
    decreases n,
{
    text::lemma_decimal_digits(n);
    text::lemma_decimal_len(n);
    let s = text::decimal(n);
    if n >= 10 {
        lemma_dec_value(n / 10);
        assert(s.drop_last() =~= text::decimal(n / 10));
        assert(s.last() == text::digit(n % 10));
        assert((s.last() as u32 - '0' as u32) as nat == n % 10);
    } else {
        assert(s.drop_last() =~= Seq::<char>::empty());
        assert(s.last() == text::digit(n));
        assert(dec_value(s.drop_last()) == 0);
        assert((s.last() as u32 - '0' as u32) as nat == n);
    }
}

/// A port is read back from its decimal form.
pub proof fn law_port_round_trip(port: u16)
    ensures
        port_value(text::decimal(port as nat)) == Some(port),
{
    lemma_dec_value(port as nat);
    let s = text::decimal(port as nat);
    assert('0' <= s[0] <= '9');
}

/// The five parameters of a link.
spec fn link_params(pk: Seq<u8>, port: u16, host: Seq<char>, name: Seq<char>) -> Seq<
    (Seq<char>, Seq<char>),
> {
    seq![
        ("v"@, "1"@),
        ("pk"@, codec::b64(true, pk)),
        ("port"@, text::decimal(port as nat)),
        ("host"@, host),
        ("name"@, escaped(name)),
    ]
}

proof fn lemma_link_literals()
    ensures
        "syncmob://pair?v=1&pk="@ == PREFIX@ + "v"@.push('=') + "1"@.push('&') + "pk"@.push('='),
        "&port="@ == seq!['&'] + "port"@.push('='),
        "&host="@ == seq!['&'] + "host"@.push('='),
        "&name="@ == seq!['&'] + "name"@.push('='),
{
    reveal_strlit("syncmob://pair?v=1&pk=");
    reveal_strlit("syncmob://pair?");
    reveal_strlit("v");
    reveal_strlit("1");
    reveal_strlit("pk");
    reveal_strlit("&port=");
    reveal_strlit("port");
    reveal_strlit("&host=");
    reveal_strlit("host");
    reveal_strlit("&name=");
    reveal_strlit("name");
    assert("syncmob://pair?v=1&pk="@ =~= PREFIX@ + "v"@.push('=') + "1"@.push('&') + "pk"@.push(
        '=',
    ));
    assert("&port="@ =~= seq!['&'] + "port"@.push('='));
    assert("&host="@ =~= seq!['&'] + "host"@.push('='));
    assert("&name="@ =~= seq!['&'] + "name"@.push('='));
}

proof fn lemma_link_keys()
    ensures
        forall|i: int| 0 <= i < "v"@.len() ==> #[trigger] "v"@[i] != '=' && "v"@[i] != '&',
        forall|i: int| 0 <= i < "1"@.len() ==> #[trigger] "1"@[i] != '=' && "1"@[i] != '&',
        forall|i: int| 0 <= i < "pk"@.len() ==> #[trigger] "pk"@[i] != '=' && "pk"@[i] != '&',
        forall|i: int| 0 <= i < "port"@.len() ==> #[trigger] "port"@[i] != '=' && "port"@[i] != '&',
        forall|i: int| 0 <= i < "host"@.len() ==> #[trigger] "host"@[i] != '=' && "host"@[i] != '&',
        forall|i: int| 0 <= i < "name"@.len() ==> #[trigger] "name"@[i] != '=' && "name"@[i] != '&',
        "v"@ != "pk"@,
        "v"@ != "port"@,
        "pk"@ != "port"@,
        "pk"@ != "host"@,
        "pk"@ != "name"@,
        "port"@ != "host"@,
        "port"@ != "name"@,
        "host"@ != "name"@,
        "v"@ != "host"@,
        "v"@ != "name"@,
{
    reveal_strlit("v");
    reveal_strlit("1");
    reveal_strlit("pk");
    reveal_strlit("port");
    reveal_strlit("host");
    reveal_strlit("name");
    assert("port"@[0] == 'p' && "host"@[0] == 'h' && "name"@[0] == 'n');
    assert("pk"@.len() == 2 && "port"@.len() == 4 && "v"@.len() == 1);
}

proof fn lemma_b64_no_ampersand(pk: Seq<u8>)
    ensures
        one_param(codec::b64(true, pk)),
    decreases pk.len(),
{
    if pk.len() > 2 {
        lemma_b64_no_ampersand(pk.skip(3));
        let r = codec::b64(true, pk);
        let t = codec::b64(true, pk.skip(3));
        assert forall|i: int| 0 <= i < r.len() implies #[trigger] r[i] != '&' by {
            if i >= 4 {
                assert(r[i] == t[i - 4]);
            }
        }
    }
}

proof fn lemma_glue(key: Seq<char>, value: Seq<char>)
    requires
        one_param(key),
        one_param(value),
    ensures
        one_param(key.push('=') + value),
{
    let s = key.push('=') + value;
    assert forall|i: int| 0 <= i < s.len() implies #[trigger] s[i] != '&' by {
        if i < key.len() {
            assert(s[i] == key[i]);
        } else if i > key.len() {
            assert(s[i] == value[i - key.len() - 1]);
        }
    }
}

#[verifier::rlimit(40)]
proof fn lemma_link_params(pk: Seq<u8>, port: u16, host: Seq<char>, name: Seq<char>)
    requires
        one_param(host),
    ensures
        link_rest(link(pk, port, host, name)) matches Some(rest) && params(rest) == link_params(
            pk,
            port,
            host,
            name,
        ),
{
    lemma_link_literals();
    lemma_link_keys();
    let k = codec::b64(true, pk);
    let p = text::decimal(port as nat);
    let n = escaped(name);
    lemma_b64_no_ampersand(pk);
    text::lemma_decimal_digits(port as nat);
    lemma_escape_ascii(encode_utf8(name));
    let a = "v"@.push('=') + "1"@;
    let b = "pk"@.push('=') + k;
    let c = "port"@.push('=') + p;
    let d = "host"@.push('=') + host;
    let e = "name"@.push('=') + n;
    lemma_glue("v"@, "1"@);
    lemma_glue("pk"@, k);
    lemma_glue("port"@, p);
    lemma_glue("host"@, host);
    lemma_param("v"@, "1"@);
    lemma_param("pk"@, k);
    lemma_param("port"@, p);
    lemma_param("host"@, host);
    lemma_param("name"@, n);
    assert forall|i: int| 0 <= i < e.len() implies #[trigger] e[i] != '&' by {
        if i < "name"@.len() {
            assert(e[i] == "name"@[i]);
        } else if i > "name"@.len() {
            assert(e[i] == n[i - "name"@.len() - 1]);
        }
    }
    let re = e;
    let rd = d.push('&') + re;
    let rc = c.push('&') + rd;
    let rb = b.push('&') + rc;
    let ra = a.push('&') + rb;
    lemma_params_one(e);
    lemma_params_cons(d, re);
    lemma_params_cons(c, rd);
    lemma_params_cons(b, rc);
    lemma_params_cons(a, rb);
    let l = link(pk, port, host, name);
    assert(l =~= PREFIX@ + ra);
    assert(l.take(PREFIX@.len() as int) =~= PREFIX@);
    assert(l.skip(PREFIX@.len() as int) =~= ra);
    assert(params(ra) =~= link_params(pk, port, host, name));
}

/// The link that points at a device is read as pointing at that device: the
/// key, the port, the address and the name are the ones that went in. Where the
/// port is zero, the usual one is taken.
pub proof fn law_link_round_trip(pk: Seq<u8>, port: u16, host: Seq<char>, name: Seq<char>)
    requires
        one_param(host),
    ensures
        ({
            let l = link(pk, port, host, name);
            &&& link_rest(l) is Some
            &&& is_link_key(l, pk)
            &&& port > 0 ==> link_port(l) == port
            &&& port == 0 ==> link_port(l) == 45821
            &&& link_value(l, "host"@) == Some(host)
            &&& link_value(l, "name"@) == Some(escaped(name))
            &&& unescape_bytes(encode_utf8(escaped(name))) == encode_utf8(name)
            &&& valid_utf8(encode_utf8(name))
            &&& decode_utf8(encode_utf8(name)) == name
        }),
{
    let l = link(pk, port, host, name);
    lemma_link_params(pk, port, host, name);
    lemma_link_keys();
    law_unescape_inverts_escape(name);
    law_port_round_trip(port);
    let ps = link_params(pk, port, host, name);
    lemma_last_value(ps, "pk"@, 2);
    lemma_last_value(ps, "port"@, 3);
    lemma_last_value(ps, "host"@, 4);
    lemma_last_value(ps, "name"@, 5);
}

/// The address of a link in dotted decimal is one parameter.
pub proof fn law_link_host_is_one_param(addr: Option<u32>)
    ensures
        one_param(link_host(addr)),
{
    match addr {
        Some(a) => {
            reveal_strlit(".");
            text::lemma_decimal_digits(util::octet(a, 0) as nat);
            text::lemma_decimal_digits(util::octet(a, 1) as nat);
            text::lemma_decimal_digits(util::octet(a, 2) as nat);
            text::lemma_decimal_digits(util::octet(a, 3) as nat);
            let p0 = text::decimal(util::octet(a, 0) as nat);
            let p1 = text::decimal(util::octet(a, 1) as nat);
            let p2 = text::decimal(util::octet(a, 2) as nat);
            let p3 = text::decimal(util::octet(a, 3) as nat);
            let dot = "."@;
            lemma_concat_one(p0, dot);
            lemma_concat_one(p0 + dot, p1);
            lemma_concat_one(p0 + dot + p1, dot);
            lemma_concat_one(p0 + dot + p1 + dot, p2);
            lemma_concat_one(p0 + dot + p1 + dot + p2, dot);
            lemma_concat_one(p0 + dot + p1 + dot + p2 + dot, p3);
        },
        None => {
            reveal_strlit("0.0.0.0");
        },
    }
}

proof fn lemma_concat_one(a: Seq<char>, b: Seq<char>)
    requires
        one_param(a),
        one_param(b),
    ensures
        one_param(a + b),
{
    assert forall|i: int| 0 <= i < (a + b).len() implies #[trigger] (a + b)[i] != '&' by {
        if i < a.len() {
            assert((a + b)[i] == a[i]);
        } else {
            assert((a + b)[i] == b[i - a.len()]);
        }
    }
}

} // verus!
