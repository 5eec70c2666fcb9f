//! Small helpers that matter for safety on their own: file names, address
//! ranges and the clamping of text that comes from a peer.

pub mod laws;

use vstd::prelude::*;
use vstd::string::*;
use crate::text;

verus! {

broadcast use vstd::seq_lib::group_filter_ensures;

/// Maximum length (in bytes) of a sanitized file name.
pub const MAX_NAME_LEN: usize = 120;

/// The name given to a file whose own name leaves nothing usable.
pub open spec fn fallback_name() -> Seq<char> {
    "received_file"@
}

/// Either path separator.
pub open spec fn is_separator(c: char) -> bool {
    c == '/' || c == '\\'
}

/// Characters that are illegal in Windows file names, plus the path separators.
pub open spec fn is_illegal(c: char) -> bool {
    c == '<' || c == '>' || c == ':' || c == '"' || c == '/' || c == '\\' || c == '|' || c == '?'
        || c == '*'
}

/// Characters that a file name may keep.
pub open spec fn is_kept(c: char) -> bool {
    !text::is_control(c) && !is_illegal(c)
}

/// What follows the last path separator.
pub open spec fn last_component(s: Seq<char>) -> Seq<char>
    decreases s.len(),
{
    if s.len() == 0 || is_separator(s.last()) {
        Seq::empty()
    } else {
        last_component(s.drop_last()).push(s.last())
    }
}

/// A name without its trailing dots and spaces.
pub open spec fn strip_tail(s: Seq<char>) -> Seq<char>
    decreases s.len(),
{
    if s.len() > 0 && (s.last() == '.' || s.last() == ' ') {
        strip_tail(s.drop_last())
    } else {
        s
    }
}

/// The part of a peer's file name that is safe to use, possibly nothing.
pub open spec fn cleaned(raw: Seq<char>) -> Seq<char> {
    text::trim_start(strip_tail(text::trim(last_component(raw)).filter(|c: char| is_kept(c))))
}

/// What precedes the first dot.
pub open spec fn first_part(s: Seq<char>) -> Seq<char>
    decreases s.len(),
{
    if s.len() == 0 || s[0] == '.' {
        Seq::empty()
    } else {
        seq![s[0]] + first_part(s.skip(1))
    }
}

/// Device names reserved by Windows; using them as a file name is refused.
pub open spec fn is_reserved(s: Seq<char>) -> bool {
    ||| s == seq!['C', 'O', 'N']
    ||| s == seq!['P', 'R', 'N']
    ||| s == seq!['A', 'U', 'X']
    ||| s == seq!['N', 'U', 'L']
    ||| s.len() == 4 && '1' <= s[3] <= '9' && (s.take(3) == seq!['C', 'O', 'M'] || s.take(3)
        == seq!['L', 'P', 'T'])
}

/// The index of the last dot, or `-1`.
pub open spec fn last_dot(s: Seq<char>) -> int
    decreases s.len(),
{
    if s.len() == 0 {
        -1
    } else if s.last() == '.' {
        s.len() - 1
    } else {
        last_dot(s.drop_last())
    }
}

/// How many characters of `s` fit into `budget` bytes.
pub open spec fn fitting(s: Seq<char>, budget: nat) -> nat
    decreases s.len(),
{
    if text::utf8_len(s) <= budget || s.len() == 0 {
        s.len()
    } else {
        fitting(s.drop_last(), budget)
    }
}

/// The extension that truncation keeps: the last dot and what follows it, if
/// the dot is not the first character and the whole is at most 16 bytes long.
pub open spec fn short_extension(s: Seq<char>) -> Seq<char> {
    let dot = last_dot(s);
    if dot > 0 && text::utf8_len(s.skip(dot)) <= 16 {
        s.skip(dot)
    } else {
        Seq::empty()
    }
}

/// A name cut to `max` bytes, with its extension where that is short.
pub open spec fn truncated(s: Seq<char>, max: nat) -> Seq<char> {
    if text::utf8_len(s) <= max {
        s
    } else {
        let ext = short_extension(s);
        let stem = s.take(s.len() - ext.len());
        let budget = if text::utf8_len(ext) <= max {
            (max - text::utf8_len(ext)) as nat
        } else {
            0
        };
        let cut = fitting(stem, budget);
        if cut == 0 {
            fallback_name()
        } else {
            stem.take(cut as int) + ext
        }
    }
}

/// A name cut to [`MAX_NAME_LEN`] bytes, without the dots and spaces that the
/// cut may leave at its end.
pub open spec fn shortened(s: Seq<char>) -> Seq<char> {
    let t = strip_tail(truncated(s, MAX_NAME_LEN as nat));
    if t.len() == 0 {
        fallback_name()
    } else {
        t
    }
}

/// The safe form of a peer's file name.
pub open spec fn sanitized(raw: Seq<char>) -> Seq<char> {
    let name = shortened(cleaned(raw));
    if is_reserved(text::upper_all(first_part(name))) {
        shortened(seq!['_'] + name)
    } else {
        name
    }
}

fn separator_char(c: char) -> (r: bool)
    ensures
        r == is_separator(c),
{
    c == '/' || c == '\\'
}

fn kept_char(c: char) -> (r: bool)
    ensures
        r == is_kept(c),
{
    !text::char_is_control(c) && !(c == '<' || c == '>' || c == ':' || c == '"' || c == '/' || c == '\\'
        || c == '|' || c == '?' || c == '*')
}

/// The index at which the last path component of `v` starts.
fn component_start(v: &Vec<char>) -> (r: usize)
    ensures
        r <= v@.len(),
        v@.skip(r as int) == last_component(v@),
{
    let mut i: usize = v.len();
    proof {
        assert(v@.take(v@.len() as int) =~= v@);
        assert(v@.skip(v@.len() as int) =~= Seq::<char>::empty());
        assert(last_component(v@) =~= last_component(v@) + Seq::<char>::empty());
    }
    while i > 0 && !separator_char(v[i - 1])
        invariant
            i <= v@.len(),
            last_component(v@) == last_component(v@.take(i as int)) + v@.skip(i as int),
        decreases i,
    {
        proof {
            let p = v@.take(i as int);
            assert(p.drop_last() =~= v@.take(i - 1));
            assert(last_component(p) + v@.skip(i as int) =~= last_component(p.drop_last())
                + v@.skip(i - 1));
        }
        i = i - 1;
    }
    proof {
        assert(last_component(v@.take(i as int)) =~= Seq::<char>::empty());
        assert(Seq::<char>::empty() + v@.skip(i as int) =~= v@.skip(i as int));
    }
    i
}

/// The kept characters of `v[from..to]`.
fn keep_chars(v: &Vec<char>, from: usize, to: usize) -> (r: Vec<char>)
    requires
        from <= to <= v@.len(),
    ensures
        r@ == v@.subrange(from as int, to as int).filter(|c: char| is_kept(c)),
{
    let mut r: Vec<char> = Vec::new();
    let mut i: usize = from;
    let ghost keep = |c: char| is_kept(c);
    proof {
        reveal(Seq::filter);
        assert(v@.subrange(from as int, from as int) =~= Seq::<char>::empty());
    }
    while i < to
        invariant
            from <= i <= to <= v@.len(),
            keep == (|c: char| is_kept(c)),
            r@ == v@.subrange(from as int, i as int).filter(keep),
        decreases to - i,
    {
        proof {
            let s = v@.subrange(from as int, i + 1);
            assert(s.drop_last() =~= v@.subrange(from as int, i as int));
            reveal(Seq::filter);
        }
        if kept_char(v[i]) {
            r.push(v[i]);
        }
        i = i + 1;
    }
    r
}

/// The length of `v` without its trailing dots and spaces.
fn tail_start(v: &Vec<char>) -> (r: usize)
    ensures
        r <= v@.len(),
        v@.take(r as int) == strip_tail(v@),
{
    let mut i: usize = v.len();
    proof {
        assert(v@.take(v@.len() as int) =~= v@);
    }
    while i > 0 && (v[i - 1] == '.' || v[i - 1] == ' ')
        invariant
            i <= v@.len(),
            strip_tail(v@) == strip_tail(v@.take(i as int)),
        decreases i,
    {
        proof {
            assert(v@.take(i as int).drop_last() =~= v@.take(i - 1));
        }
        i = i - 1;
    }
    i
}

/// Whether the part of `v` before its first dot is a reserved device name.
fn reserved_stem(v: &Vec<char>) -> (r: bool)
    ensures
        r == is_reserved(text::upper_all(first_part(v@))),
{
    let mut n: usize = 0;
    proof {
        assert(v@.skip(0) =~= v@);
        assert(v@.take(0) + first_part(v@) =~= first_part(v@));
    }
    while n < v.len() && v[n] != '.'
        invariant
            n <= v@.len(),
            first_part(v@) == v@.take(n as int) + first_part(v@.skip(n as int)),
        decreases v.len() - n,
    {
        proof {
            let p = v@.skip(n as int);
            assert(p.skip(1) =~= v@.skip(n + 1));
            assert(v@.take(n as int) + first_part(p) =~= v@.take(n + 1) + first_part(p.skip(1)));
        }
        n = n + 1;
    }
    let ghost u = text::upper_all(first_part(v@));
    proof {
        assert(first_part(v@) =~= v@.take(n as int));
        assert(u.len() == n);
    }
    if n == 3 {
        let a = text::upper_char(v[0]);
        let b = text::upper_char(v[1]);
        let c = text::upper_char(v[2]);
        proof {
            assert(u =~= seq![a, b, c]);
            assert(seq![a, b, c][0] == a && seq![a, b, c][1] == b && seq![a, b, c][2] == c);
            let con = seq!['C', 'O', 'N'];
            let prn = seq!['P', 'R', 'N'];
            let aux = seq!['A', 'U', 'X'];
            let nul = seq!['N', 'U', 'L'];
            assert(u == con <==> (u[0] == con[0] && u[1] == con[1] && u[2] == con[2])) by {
                if u[0] == con[0] && u[1] == con[1] && u[2] == con[2] {
                    assert(u =~= con);
                }
            }
            assert(u == prn <==> (u[0] == prn[0] && u[1] == prn[1] && u[2] == prn[2])) by {
                if u[0] == prn[0] && u[1] == prn[1] && u[2] == prn[2] {
                    assert(u =~= prn);
                }
            }
            assert(u == aux <==> (u[0] == aux[0] && u[1] == aux[1] && u[2] == aux[2])) by {
                if u[0] == aux[0] && u[1] == aux[1] && u[2] == aux[2] {
                    assert(u =~= aux);
                }
            }
            assert(u == nul <==> (u[0] == nul[0] && u[1] == nul[1] && u[2] == nul[2])) by {
                if u[0] == nul[0] && u[1] == nul[1] && u[2] == nul[2] {
                    assert(u =~= nul);
                }
            }
        }
        (a == 'C' && b == 'O' && c == 'N') || (a == 'P' && b == 'R' && c == 'N') || (a == 'A' && b
            == 'U' && c == 'X') || (a == 'N' && b == 'U' && c == 'L')
    } else if n == 4 {
        let a = text::upper_char(v[0]);
        let b = text::upper_char(v[1]);
        let c = text::upper_char(v[2]);
        let d = text::upper_char(v[3]);
        proof {
            let t = u.take(3);
            let com = seq!['C', 'O', 'M'];
            let lpt = seq!['L', 'P', 'T'];
            assert(t[0] == a && t[1] == b && t[2] == c && u[3] == d);
            assert(t == com <==> (t[0] == com[0] && t[1] == com[1] && t[2] == com[2])) by {
                if t[0] == com[0] && t[1] == com[1] && t[2] == com[2] {
                    assert(t =~= com);
                }
            }
            assert(t == lpt <==> (t[0] == lpt[0] && t[1] == lpt[1] && t[2] == lpt[2])) by {
                if t[0] == lpt[0] && t[1] == lpt[1] && t[2] == lpt[2] {
                    assert(t =~= lpt);
                }
            }
        }
        d >= '1' && d <= '9' && ((a == 'C' && b == 'O' && c == 'M') || (a == 'L' && b == 'P' && c
            == 'T'))
    } else {
        false
    }
}

/// Turn an attacker-controlled file name into something safe to create inside
/// the download directory.
///
/// The remote peer fully controls this string, so the result is free of path
/// separators, of NTFS stream separators, of control characters, of Windows
/// device names and of the trailing dots and spaces that Windows strips.
pub fn sanitize_filename(raw: &str) -> (r: String)
    ensures
        r@ == sanitized(raw@),
{
    let v = text::to_chars(raw);
    let n: usize = v.len();
    let start: usize = component_start(&v);
    proof {
        assert(v@.subrange(start as int, n as int) =~= v@.skip(start as int));
    }
    let a: usize = text::skip_white(&v, start, n);
    let b: usize = text::skip_white_back(&v, a, n);
    let kept = keep_chars(&v, a, b);
    let end: usize = tail_start(&kept);
    proof {
        assert(kept@.subrange(0, end as int) =~= kept@.take(end as int));
    }
    let first: usize = text::skip_white(&kept, 0, end);
    let name = shorten_name(text::chars_to_string(kept.as_slice(), first, end).as_str());
    let chars = text::to_chars(name.as_str());
    if reserved_stem(&chars) {
        let mut r = String::new();
        r.push('_');
        r.append(name.as_str());
        proof {
            assert(r@ =~= seq!['_'] + name@);
        }
        return shorten_name(r.as_str());
    }
    name
}

/// See [`shortened`].
fn shorten_name(name: &str) -> (r: String)
    ensures
        r@ == shortened(name@),
{
    let t = text::to_chars(truncate_keeping_extension(name, MAX_NAME_LEN).as_str());
    let end: usize = tail_start(&t);
    if end == 0 {
        return "received_file".to_string();
    }
    proof {
        assert(t@.subrange(0, end as int) =~= t@.take(end as int));
    }
    text::chars_to_string(t.as_slice(), 0, end)
}

proof fn lemma_utf8_len_take(s: Seq<char>, i: int, j: int)
    requires
        0 <= i <= j <= s.len(),
    ensures
        text::utf8_len(s.take(i)) <= text::utf8_len(s.take(j)) <= text::utf8_len(s),
{
    text::lemma_utf8_len_concat(s.take(i), s.subrange(i, j));
    assert(s.take(i) + s.subrange(i, j) =~= s.take(j));
    text::lemma_utf8_len_concat(s.take(j), s.skip(j));
    assert(s.take(j) + s.skip(j) =~= s);
}

/// The fitting prefix is the one that fits while the next longer one does not.
proof fn lemma_fitting(s: Seq<char>, budget: nat, k: int)
    requires
        0 <= k <= s.len(),
        text::utf8_len(s.take(k)) <= budget,
        k < s.len() ==> text::utf8_len(s.take(k + 1)) > budget,
    ensures
        fitting(s, budget) == k,
    decreases s.len(),
{
    if k == s.len() {
        assert(s.take(k) =~= s);
    } else {
        lemma_utf8_len_take(s, k + 1, s.len() as int);
        assert(s.take(s.len() as int) =~= s);
        let t = s.drop_last();
        assert(t.take(k) =~= s.take(k));
        if k < t.len() {
            assert(t.take(k as int + 1) =~= s.take(k as int + 1));
        }
        lemma_fitting(t, budget, k);
    }
}

/// The index of the last dot in `v`, if there is one.
fn find_last_dot(v: &Vec<char>) -> (r: Option<usize>)
    ensures
        match r {
            Some(i) => i < v@.len() && last_dot(v@) == i,
            None => last_dot(v@) == -1,
        },
{
    let mut i: usize = v.len();
    proof {
        assert(v@.take(v@.len() as int) =~= v@);
    }
    while i > 0
        invariant
            i <= v@.len(),
            last_dot(v@) == last_dot(v@.take(i as int)),
        decreases i,
    {
        proof {
            assert(v@.take(i as int).drop_last() =~= v@.take(i - 1));
        }
        if v[i - 1] == '.' {
            return Some(i - 1);
        }
        i = i - 1;
    }
    None
}

/// The bytes of `v[from..]`, given that those of all of `v` can be counted.
fn bytes_from(v: &Vec<char>, from: usize) -> (r: usize)
    requires
        from <= v@.len(),
        text::utf8_len(v@) <= usize::MAX,
    ensures
        r == text::utf8_len(v@.skip(from as int)),
{
    let mut r: usize = 0;
    let mut i: usize = from;
    proof {
        assert(v@.subrange(from as int, from as int) =~= Seq::<char>::empty());
    }
    while i < v.len()
        invariant
            from <= i <= v@.len(),
            text::utf8_len(v@) <= usize::MAX,
            r == text::utf8_len(v@.subrange(from as int, i as int)),
        decreases v.len() - i,
    {
        proof {
            let s = v@.subrange(from as int, i as int);
            text::lemma_utf8_len_push(s, v@[i as int]);
            assert(s.push(v@[i as int]) =~= v@.subrange(from as int, i + 1));
            text::lemma_utf8_len_concat(v@.take(from as int), v@.skip(from as int));
            assert(v@.take(from as int) + v@.skip(from as int) =~= v@);
            lemma_utf8_len_take(v@.skip(from as int), i + 1 - from, i + 1 - from);
            assert(v@.skip(from as int).take(i + 1 - from) =~= v@.subrange(from as int, i + 1));
        }
        r = r + text::width_of(v[i]);
        i = i + 1;
    }
    proof {
        assert(v@.subrange(from as int, v@.len() as int) =~= v@.skip(from as int));
    }
    r
}

/// Cut a name to `max` bytes, keeping its extension when it is short.
pub fn truncate_keeping_extension(name: &str, max: usize) -> (r: String)
    ensures
        r@ == truncated(name@, max as nat),
{
    let total: usize = name.as_bytes().len();
    if total <= max {
        return name.to_string();
    }
    let v = text::to_chars(name);
    let n: usize = v.len();
    let mut stem: usize = n;
    let mut ext_bytes: usize = 0;
    let ghost ext = short_extension(name@);
    proof {
        assert(name@.skip(n as int) =~= Seq::<char>::empty());
        reveal_with_fuel(vstd::utf8::encode_utf8, 1);
    }
    if let Some(i) = find_last_dot(&v) {
        if i > 0 {
            let b: usize = bytes_from(&v, i);
            if b <= 16 {
                stem = i;
                ext_bytes = b;
            }
        }
    }
    proof {
        assert(ext =~= v@.skip(stem as int));
        assert(name@.len() - ext.len() == stem);
    }
    let budget: usize = if ext_bytes <= max {
        max - ext_bytes
    } else {
        0
    };
    let mut k: usize = 0;
    let mut used: usize = 0;
    let ghost s = v@.take(stem as int);
    proof {
        assert(s.take(0) =~= Seq::<char>::empty());
    }
    while k < stem && text::width_of(v[k]) <= budget - used
        invariant
            k <= stem <= n == v@.len(),
            s == v@.take(stem as int),
            used <= budget,
            used == text::utf8_len(s.take(k as int)),
        decreases stem - k,
    {
        proof {
            text::lemma_utf8_len_push(s.take(k as int), s[k as int]);
            assert(s.take(k as int).push(s[k as int]) =~= s.take(k + 1));
        }
        used = used + text::width_of(v[k]);
        k = k + 1;
    }
    proof {
        if k < stem {
            text::lemma_utf8_len_push(s.take(k as int), s[k as int]);
            assert(s.take(k as int).push(s[k as int]) =~= s.take(k + 1));
        }
        lemma_fitting(s, budget as nat, k as int);
    }
    if k == 0 {
        return "received_file".to_string();
    }
    let mut r = text::chars_to_string(v.as_slice(), 0, k);
    let tail = text::chars_to_string(v.as_slice(), stem, n);
    r.append(tail.as_str());
    proof {
        assert(v@.subrange(0, k as int) =~= s.take(k as int));
        assert(v@.subrange(stem as int, n as int) =~= ext);
    }
    r
}

/// Truncate a remote-supplied string before it ever reaches a log line or the
/// UI, so a peer cannot flood the interface.
pub open spec fn clamped(s: Seq<char>, max: nat) -> Seq<char> {
    let flat = s.map_values(|c: char| one_line(c));
    if s.len() <= max {
        flat
    } else {
        flat.take(max as int).push('…')
    }
}

/// Line breaks and NUL become spaces.
pub open spec fn one_line(c: char) -> char {
    if c == '\r' || c == '\n' || c == '\0' {
        ' '
    } else {
        c
    }
}

/// See [`clamped`].
pub fn clamp_str(s: &str, max: usize) -> (r: String)
    ensures
        r@ == clamped(s@, max as nat),
{
    let v = text::to_chars(s);
    let n: usize = if v.len() <= max {
        v.len()
    } else {
        max
    };
    let ghost flat = s@.map_values(|c: char| one_line(c));
    let mut r = String::new();
    let mut i: usize = 0;
    while i < n
        invariant
            i <= n <= v@.len(),
            v@ == s@,
            flat == s@.map_values(|c: char| one_line(c)),
            r@ == flat.take(i as int),
        decreases n - i,
    {
        let c = v[i];
        if c == '\r' || c == '\n' || c == '\0' {
            r.push(' ');
        } else {
            r.push(c);
        }
        proof {
            assert(flat.take(i + 1) =~= flat.take(i as int).push(flat[i as int]));
        }
        i = i + 1;
    }
    if v.len() > max {
        r.push('…');
    } else {
        proof {
            assert(flat.take(n as int) =~= flat);
        }
    }
    r
}

/// A text cut to `max` characters.
pub open spec fn cut(s: Seq<char>, max: nat) -> Seq<char> {
    if s.len() <= max {
        s
    } else {
        s.take(max as int)
    }
}

/// See [`cut`].
pub fn cut_str(s: &str, max: usize) -> (r: String)
    ensures
        r@ == cut(s@, max as nat),
{
    let v = text::to_chars(s);
    if v.len() <= max {
        s.to_string()
    } else {
        proof {
            assert(v@.subrange(0, max as int) =~= v@.take(max as int));
        }
        text::chars_to_string(v.as_slice(), 0, max)
    }
}

/// The nearest integer to `a / b`; of two that are equally near, the even one.
pub open spec fn half_even(a: nat, b: nat) -> nat {
    let q = a / b;
    let r = a % b;
    if 2 * r > b || (2 * r == b && q % 2 == 1) {
        q + 1
    } else {
        q
    }
}

/// The weight of the last of the 53 bits that a number keeps.
pub open spec fn last_bit(n: nat) -> nat
    decreases n,
{
    if n < 0x20_0000_0000_0000 {
        1
    } else {
        2 * last_bit(n / 2)
    }
}

/// A number rounded to 53 bits.
pub open spec fn to_53_bits(n: nat) -> nat {
    half_even(n, last_bit(n)) * last_bit(n)
}

/// The unit that a size is given in: bytes, or a power of 1024 of them.
pub open spec fn size_unit(n: nat) -> (nat, Seq<char>) {
    if n < 1024 {
        (1, "B"@)
    } else if n < 0x10_0000 {
        (1024, "KiB"@)
    } else if n < 0x4000_0000 {
        (0x10_0000, "MiB"@)
    } else if n < 0x100_0000_0000 {
        (0x4000_0000, "GiB"@)
    } else {
        (0x100_0000_0000, "TiB"@)
    }
}

/// A size for people: in bytes below 1024, else in the largest unit with one
/// digit behind the point.
pub open spec fn size_text(n: nat) -> Seq<char> {
    let v = to_53_bits(n);
    let (unit, name) = size_unit(v);
    if unit == 1 {
        text::decimal(n) + " B"@
    } else {
        let tenths = half_even(10 * v, unit);
        text::decimal(tenths / 10) + "."@ + text::decimal(tenths % 10) + " "@ + name
    }
}

fn round_half_even(a: u128, b: u128) -> (r: u128)
    requires
        0 < b <= 0x100_0000_0000,
        a < u128::MAX,
    ensures
        r == half_even(a as nat, b as nat),
{
    let q: u128 = a / b;
    let rest: u128 = a % b;
    proof {
        assert(q <= a) by (nonlinear_arith)
            requires
                q == a / b,
                b > 0,
        ;
    }
    if 2 * rest > b || (2 * rest == b && q % 2 == 1) {
        q + 1
    } else {
        q
    }
}

/// The bounds of a number rounded to 53 bits.
proof fn lemma_last_bit(n: nat)
    requires
        n <= u64::MAX,
    ensures
        1 <= last_bit(n) <= 2048,
        last_bit(n) * (n / last_bit(n)) <= n,
        n / last_bit(n) < 0x20_0000_0000_0000,
    decreases n,
{
    reveal_with_fuel(last_bit, 13);
    let b = last_bit(n);
    assert(n / b < 0x20_0000_0000_0000 && b * (n / b) <= n) by (nonlinear_arith)
        requires
            b == 1 && n < 0x20_0000_0000_0000 || b == 2 && n < 0x40_0000_0000_0000 || b == 4 && n
                < 0x80_0000_0000_0000 || b == 8 && n < 0x100_0000_0000_0000 || b == 16 && n
                < 0x200_0000_0000_0000 || b == 32 && n < 0x400_0000_0000_0000 || b == 64 && n
                < 0x800_0000_0000_0000 || b == 128 && n < 0x1000_0000_0000_0000 || b == 256 && n
                < 0x2000_0000_0000_0000 || b == 512 && n < 0x4000_0000_0000_0000 || b == 1024 && n
                < 0x8000_0000_0000_0000 || b == 2048 && n < 0x1_0000_0000_0000_0000,
    ;
}

/// Human readable byte size, for the UI and logs only; see [`size_text`].
pub fn human_bytes(n: u64) -> (r: String)
    ensures
        r@ == size_text(n as nat),
{
    let mut bit: u128 = 1;
    let mut top: u64 = n;
    proof {
        lemma_last_bit(n as nat);
    }
    while top >= 0x20_0000_0000_0000
        invariant
            1 <= bit,
            bit * last_bit(top as nat) == last_bit(n as nat),
            last_bit(n as nat) <= 2048,
        decreases top,
    {
        proof {
            let rest = last_bit((top / 2) as nat);
            lemma_last_bit((top / 2) as nat);
            assert(bit * (2 * rest) == (bit * 2) * rest && bit * 2 <= 2048) by (nonlinear_arith)
                requires
                    bit * (2 * rest) <= 2048,
                    rest >= 1,
            ;
        }
        bit = bit * 2;
        top = top / 2;
    }
    proof {
        let one = last_bit(top as nat);
        assert(bit * one == bit) by (nonlinear_arith)
            requires
                one == 1,
        ;
    }
    let kept: u128 = round_half_even(n as u128, bit);
    proof {
        let q = n as nat / bit as nat;
        assert(kept <= q + 1);
        assert(kept * bit <= 0x20_0000_0000_0000 * 2048) by (nonlinear_arith)
            requires
                kept <= 0x20_0000_0000_0000,
                1 <= bit <= 2048,
        ;
    }
    let v: u128 = kept * bit;
    if v < 1024 {
        let mut r = text::decimal_text(n);
        r.append(" B");
        return r;
    }
    let (unit, name): (u128, &str) = if v < 0x10_0000 {
        (1024, "KiB")
    } else if v < 0x4000_0000 {
        (0x10_0000, "MiB")
    } else if v < 0x100_0000_0000 {
        (0x4000_0000, "GiB")
    } else {
        (0x100_0000_0000, "TiB")
    };
    let tenths: u128 = round_half_even(10 * v, unit);
    proof {
        let q = (10 * v) as nat / unit as nat;
        assert(q <= (10 * v) / 1024) by (nonlinear_arith)
            requires
                q == (10 * v) as nat / unit as nat,
                unit >= 1024,
        ;
    }
    let mut r = text::decimal_text((tenths / 10) as u64);
    r.append(".");
    r.append(text::decimal_text((tenths % 10) as u64).as_str());
    r.append(" ");
    r.append(name);
    r
}

/// An IP address, as the number that its octets write.
#[derive(Clone, Copy, PartialEq, Eq, Debug, Structural)]
pub enum IpAddr {
    V4(u32),
    V6(u128),
}

/// An IP address and a port.
#[derive(Clone, Copy, PartialEq, Eq, Debug, Structural)]
pub struct SocketAddr {
    pub ip: IpAddr,
    pub port: u16,
}

/// The `n`-th octet of an IPv4 address, counted from the left.
pub open spec fn octet(addr: u32, n: int) -> int {
    if n == 0 {
        addr as int / 0x100_0000
    } else if n == 1 {
        addr as int / 0x1_0000 % 0x100
    } else if n == 2 {
        addr as int / 0x100 % 0x100
    } else {
        addr as int % 0x100
    }
}

/// The shared address space 100.64.0.0/10 of carrier-grade NAT.
pub open spec fn cgnat(addr: u32) -> bool {
    octet(addr, 0) == 100 && 64 <= octet(addr, 1) <= 127
}

/// Private, link-local, loopback and carrier-grade NAT ranges of IPv4.
pub open spec fn lan_v4(addr: u32) -> bool {
    ||| octet(addr, 0) == 10
    ||| octet(addr, 0) == 172 && 16 <= octet(addr, 1) <= 31
    ||| octet(addr, 0) == 192 && octet(addr, 1) == 168
    ||| octet(addr, 0) == 169 && octet(addr, 1) == 254
    ||| octet(addr, 0) == 127
    ||| cgnat(addr)
}

/// The first 16-bit group of an IPv6 address.
pub open spec fn first_group(addr: u128) -> int {
    addr as int / 0x1_0000_0000_0000_0000_0000_0000_0000int
}

/// The loopback address, unique local fc00::/7 and link-local fe80::/10.
pub open spec fn lan_v6(addr: u128) -> bool {
    ||| addr == 1
    ||| 0xfc00 <= first_group(addr) <= 0xfdff
    ||| 0xfe80 <= first_group(addr) <= 0xfebf
}

/// Addresses of a private or link-local network.
pub open spec fn lan_addr(ip: IpAddr) -> bool {
    match ip {
        IpAddr::V4(a) => lan_v4(a),
        IpAddr::V6(a) => lan_v6(a),
    }
}

/// Reject peers that are not on a private / link-local network.
///
/// SyncMob is a LAN tool: refusing routable addresses means a misconfigured
/// port forward cannot expose the node to the open internet.
pub fn is_lan_addr(ip: IpAddr) -> (r: bool)
    ensures
        r == lan_addr(ip),
{
    match ip {
        IpAddr::V4(a) => {
            let o0: u32 = a / 0x100_0000;
            let o1: u32 = a / 0x1_0000 % 0x100;
            o0 == 10 || (o0 == 172 && o1 >= 16 && o1 <= 31) || (o0 == 192 && o1 == 168) || (o0
                == 169 && o1 == 254) || o0 == 127 || is_cgnat(a)
        },
        IpAddr::V6(a) => {
            let g: u128 = a / 0x1_0000_0000_0000_0000_0000_0000_0000;
            a == 1 || (g >= 0xfc00 && g <= 0xfdff) || (g >= 0xfe80 && g <= 0xfebf)
        },
    }
}

/// Whether an IPv4 address lies in 100.64.0.0/10.
pub fn is_cgnat(a: u32) -> (r: bool)
    ensures
        r == cgnat(a),
{
    let o0: u32 = a / 0x100_0000;
    let o1: u32 = a / 0x1_0000 % 0x100;
    o0 == 100 && o1 >= 64 && o1 <= 127
}

/// `dir` and `name` as one path: with a separator in between, unless `dir` is
/// empty or already ends with one.
pub open spec fn joined(dir: Seq<char>, name: Seq<char>) -> Seq<char> {
    if dir.len() == 0 || dir.last() == '/' {
        dir + name
    } else {
        dir.push('/') + name
    }
}

/// See [`joined`].
pub fn join_path(dir: &str, name: &str) -> (r: String)
    ensures
        r@ == joined(dir@, name@),
{
    let v = text::to_chars(dir);
    let mut r = dir.to_string();
    if v.len() > 0 && v[v.len() - 1] != '/' {
        r.push('/');
    }
    r.append(name);
    r
}

/// The index at which a numbered name is split: that of the last dot, unless
/// it comes first or there is none.
pub open spec fn number_at(name: Seq<char>) -> int {
    if last_dot(name) > 0 {
        last_dot(name)
    } else {
        name.len() as int
    }
}

/// The `n`-th name to try for a file called `name`: the name itself, then the
/// name with ` (n)` before its extension.
pub open spec fn candidate(name: Seq<char>, n: nat) -> Seq<char> {
    if n == 0 {
        name
    } else {
        name.take(number_at(name)) + seq![' ', '('] + text::decimal(n) + seq![')'] + name.skip(
            number_at(name),
        )
    }
}

fn number_index(v: &Vec<char>) -> (r: usize)
    ensures
        r == number_at(v@),
        r <= v@.len(),
{
    match find_last_dot(v) {
        Some(i) => if i > 0 {
            i
        } else {
            v.len()
        },
        None => v.len(),
    }
}

/// The `n`-th file name to try; see [`candidate`].
pub fn candidate_name(name: &str, n: u64) -> (r: String)
    ensures
        r@ == candidate(name@, n as nat),
{
    if n == 0 {
        return name.to_string();
    }
    let v = text::to_chars(name);
    let at: usize = number_index(&v);
    let mut r = text::chars_to_string(v.as_slice(), 0, at);
    r.push(' ');
    r.push('(');
    r.append(text::decimal_text(n).as_str());
    r.push(')');
    r.append(text::chars_to_string(v.as_slice(), at, v.len()).as_str());
    proof {
        assert(r@ =~= candidate(name@, n as nat));
    }
    r
}

/// The search for a path inside a directory that does not exist yet.
///
/// [`UniquePath::path`] is the path to look at, and [`UniquePath::answer`] takes
/// what the file system says of it. The search ends at the first path where
/// nothing is.
#[derive(Debug)]
pub struct UniquePath {
    pub dir: String,
    pub name: String,
    /// How many paths were looked at and are taken.
    pub tries: u64,
    /// Nothing is at the current path.
    pub free: bool,
}

impl UniquePath {
    /// The path under consideration.
    pub open spec fn current(&self) -> Seq<char> {
        joined(self.dir@, candidate(self.name@, self.tries as nat))
    }

    /// Nothing was asked yet.
    pub open spec fn is_new(&self) -> bool {
        self.tries == 0 && !self.free
    }

    /// The search is what came of asking about the paths in `taken`: all that
    /// were passed over are among them, and the one that it ended at is not.
    pub open spec fn agrees(&self, taken: Set<Seq<char>>) -> bool {
        &&& forall|n: nat|
            n < self.tries ==> taken.contains(
                joined(self.dir@, #[trigger] candidate(self.name@, n)),
            )
        &&& self.free ==> !taken.contains(self.current())
    }

    /// The path to look at.
    pub fn path(&self) -> (r: String)
        ensures
            r@ == self.current(),
    {
        join_path(self.dir.as_str(), candidate_name(self.name.as_str(), self.tries).as_str())
    }

    /// Whether the search is over: nothing is at the current path.
    pub fn settled(&self) -> (r: bool)
        ensures
            r == self.free,
    {
        self.free
    }

    /// Takes what the file system says of the current path: where something
    /// exists the search moves on, where nothing does it is over.
    pub fn answer(&mut self, there: bool)
        requires
            !old(self).free,
            old(self).tries < u64::MAX,
        ensures
            final(self).dir == old(self).dir,
            final(self).name == old(self).name,
            final(self).tries == old(self).tries + if there {
                1int
            } else {
                0int
            },
            final(self).free == !there,
            forall|taken: Set<Seq<char>>| #[trigger]
                old(self).agrees(taken) && there == taken.contains(old(self).current())
                    ==> final(self).agrees(taken),
    {
        if there {
            self.tries = self.tries + 1;
        } else {
            self.free = true;
        }
    }
}

/// Starts the search for a path inside `dir` that does not exist yet,
/// appending ` (n)` to the stem if needed. Never overwrites an existing file.
pub fn unique_path(dir: &str, name: &str) -> (r: UniquePath)
    ensures
        r.dir@ == dir@,
        r.name@ == name@,
        r.is_new(),
        r.current() == joined(dir@, name@),
        forall|taken: Set<Seq<char>>| r.agrees(taken),
{
    UniquePath { dir: dir.to_string(), name: name.to_string(), tries: 0, free: false }
}

/// The path that a search ends at is not taken, and it is the first of those
/// that are tried: the name itself if it is free, else the one with the least
/// number that is.
pub proof fn law_unique_path_is_free(u: UniquePath, taken: Set<Seq<char>>)
    requires
        u.agrees(taken),
        u.free,
    ensures
        !taken.contains(u.current()),
        u.current() == joined(u.dir@, candidate(u.name@, u.tries as nat)),
        forall|n: nat|
            n < u.tries ==> taken.contains(joined(u.dir@, #[trigger] candidate(u.name@, n))),
{
}

/// All characters of a name may be kept.
pub open spec fn all_kept(s: Seq<char>) -> bool {
    forall|i: int| 0 <= i < s.len() ==> is_kept(#[trigger] s[i])
}

/// No character of a name is a path separator.
pub open spec fn separator_free(s: Seq<char>) -> bool {
    forall|i: int| 0 <= i < s.len() ==> !is_separator(#[trigger] s[i])
}

proof fn lemma_strip_tail_prefix(s: Seq<char>)
    ensures
        strip_tail(s).len() <= s.len(),
        strip_tail(s) == s.take(strip_tail(s).len() as int),
        strip_tail(s).len() > 0 ==> strip_tail(s).last() != '.' && strip_tail(s).last() != ' ',
    decreases s.len(),
{
    if s.len() > 0 && (s.last() == '.' || s.last() == ' ') {
        lemma_strip_tail_prefix(s.drop_last());
        let t = strip_tail(s);
        assert(s.drop_last().take(t.len() as int) =~= s.take(t.len() as int));
    } else {
        assert(s.take(s.len() as int) =~= s);
    }
}

proof fn lemma_trim_start_suffix(s: Seq<char>)
    ensures
        text::trim_start(s).len() <= s.len(),
        text::trim_start(s) == s.skip(s.len() - text::trim_start(s).len()),
    decreases s.len(),
{
    if s.len() > 0 && text::is_white(s[0]) {
        lemma_trim_start_suffix(s.skip(1));
        let t = text::trim_start(s);
        assert(s.skip(1).skip(s.len() - 1 - t.len()) =~= s.skip(s.len() - t.len()));
    } else {
        assert(s.skip(0) =~= s);
    }
}

proof fn lemma_cleaned(raw: Seq<char>)
    ensures
        all_kept(cleaned(raw)),
        cleaned(raw).len() > 0 ==> cleaned(raw).last() != '.' && cleaned(raw).last() != ' ',
{
    let base = text::trim(last_component(raw));
    let keep = |c: char| is_kept(c);
    let f = base.filter(keep);
    assert forall|i: int| 0 <= i < f.len() implies is_kept(#[trigger] f[i]) by {
        base.lemma_filter_pred(keep, i);
        assert(keep(f[i]));
    }
    lemma_strip_tail_prefix(f);
    lemma_trim_start_suffix(strip_tail(f));
}

/// Cleaning keeps characters of the name only, and a white one never comes
/// first.
proof fn lemma_cleaned_from(raw: Seq<char>)
    ensures
        forall|i: int|
            0 <= i < cleaned(raw).len() ==> raw.contains(#[trigger] cleaned(raw)[i]),
        cleaned(raw).len() > 0 ==> !text::is_white(cleaned(raw)[0]),
{
    let part = last_component(raw);
    let base = text::trim(part);
    let keep = |c: char| is_kept(c);
    let f = base.filter(keep);
    let t = strip_tail(f);
    lemma_last_component_suffix(raw);
    lemma_trim_inside(part);
    lemma_strip_tail_prefix(f);
    lemma_trim_start_suffix(t);
    lemma_trim_start_first(t);
    let c = cleaned(raw);
    assert forall|i: int| 0 <= i < c.len() implies raw.contains(#[trigger] c[i]) by {
        assert(c[i] == f[t.len() - c.len() + i]);
        assert(f.contains(c[i]));
        base.lemma_filter_contains_rev(keep, c[i]);
        assert(base.contains(c[i]));
        let j = choose|j: int| 0 <= j < base.len() && base[j] == c[i];
        assert(part.contains(base[j]));
        let k = choose|k: int| 0 <= k < part.len() && part[k] == c[i];
        assert(raw[raw.len() - part.len() + k] == part[k]);
    }
}

/// Trimming keeps a stretch of a text.
proof fn lemma_trim_inside(s: Seq<char>)
    ensures
        forall|i: int|
            0 <= i < text::trim(s).len() ==> s.contains(#[trigger] text::trim(s)[i]),
{
    let t = text::trim_start(s);
    let r = text::trim(s);
    lemma_trim_start_suffix(s);
    lemma_trim_end_prefix(t);
    assert forall|i: int| 0 <= i < r.len() implies s.contains(#[trigger] r[i]) by {
        assert(r[i] == t[i]);
        assert(t[i] == s[s.len() - t.len() + i]);
    }
}

proof fn lemma_trim_end_prefix(s: Seq<char>)
    ensures
        text::trim_end(s).len() <= s.len(),
        text::trim_end(s) == s.take(text::trim_end(s).len() as int),
    decreases s.len(),
{
    if s.len() > 0 && text::is_white(s.last()) {
        lemma_trim_end_prefix(s.drop_last());
        let t = text::trim_end(s);
        assert(s.drop_last().take(t.len() as int) =~= s.take(t.len() as int));
    } else {
        assert(s.take(s.len() as int) =~= s);
    }
}

proof fn lemma_trim_start_first(s: Seq<char>)
    ensures
        text::trim_start(s).len() > 0 ==> !text::is_white(text::trim_start(s)[0]),
    decreases s.len(),
{
    if s.len() > 0 && text::is_white(s[0]) {
        lemma_trim_start_first(s.skip(1));
    }
}

proof fn lemma_all_kept_stay(s: Seq<char>)
    requires
        all_kept(s),
    ensures
        s.filter(|c: char| is_kept(c)) == s,
    decreases s.len(),
{
    reveal(Seq::filter);
    if s.len() > 0 {
        let t = s.drop_last();
        assert forall|i: int| 0 <= i < t.len() implies is_kept(#[trigger] t[i]) by {
            assert(t[i] == s[i]);
        }
        lemma_all_kept_stay(t);
        assert(is_kept(s.last()));
        assert(t.push(s.last()) =~= s);
    }
}

proof fn lemma_no_separator(s: Seq<char>)
    requires
        separator_free(s),
    ensures
        last_component(s) == s,
    decreases s.len(),
{
    if s.len() > 0 {
        let t = s.drop_last();
        assert forall|i: int| 0 <= i < t.len() implies !is_separator(#[trigger] t[i]) by {
            assert(t[i] == s[i]);
        }
        lemma_no_separator(t);
        assert(t.push(s.last()) =~= s);
    } else {
        assert(last_component(s) =~= s);
    }
}

/// Cleaning leaves a name alone that is clean.
proof fn lemma_cleaned_stays(s: Seq<char>)
    requires
        s.len() > 0,
        all_kept(s),
        separator_free(s),
        !text::is_white(s[0]),
        !text::is_white(s.last()),
        s.last() != '.',
        s.last() != ' ',
    ensures
        cleaned(s) == s,
{
    lemma_no_separator(s);
    assert(text::trim(s) == s);
    lemma_all_kept_stay(s);
}

/// A sanitized name does not begin with white space.
proof fn lemma_sanitized_start(raw: Seq<char>)
    ensures
        sanitized(raw).len() > 0,
        !text::is_white(sanitized(raw)[0]),
{
    lemma_fallback();
    lemma_cleaned_from(raw);
    let name = shortened(cleaned(raw));
    lemma_shortened(cleaned(raw));
    lemma_shortened(seq!['_'] + name);
    assert((seq!['_'] + name)[0] == '_');
}

proof fn lemma_last_component_suffix(s: Seq<char>)
    ensures
        last_component(s).len() <= s.len(),
        last_component(s) == s.skip(s.len() - last_component(s).len()),
    decreases s.len(),
{
    if s.len() > 0 && !is_separator(s.last()) {
        lemma_last_component_suffix(s.drop_last());
        assert(last_component(s) =~= s.skip(s.len() - last_component(s).len()));
    } else {
        assert(s.skip(s.len() as int) =~= Seq::<char>::empty());
    }
}

proof fn lemma_fallback()
    ensures
        fallback_name().len() == 13,
        all_kept(fallback_name()),
        is_ascii_text(fallback_name()),
        !text::is_white(fallback_name()[0]),
        fallback_name().last() == 'e',
        !is_reserved(text::upper_all(first_part(fallback_name()))),
        text::utf8_len(fallback_name()) <= MAX_NAME_LEN,
{
    reveal_strlit("received_file");
    text::lemma_utf8_len_bounds(fallback_name());
    lemma_first_part(fallback_name(), 13);
}

/// Without a dot in the first `k` characters, the first part covers them.
proof fn lemma_first_part(s: Seq<char>, k: int)
    requires
        0 <= k <= s.len(),
        forall|i: int| 0 <= i < k ==> #[trigger] s[i] != '.',
    ensures
        first_part(s).len() >= k,
    decreases k,
{
    if k > 0 {
        assert forall|i: int| 0 <= i < k - 1 implies #[trigger] s.skip(1)[i] != '.' by {
            assert(s.skip(1)[i] == s[i + 1]);
        }
        lemma_first_part(s.skip(1), k - 1);
    }
}

proof fn lemma_fitting_bounds(s: Seq<char>, budget: nat)
    ensures
        fitting(s, budget) <= s.len(),
        text::utf8_len(s.take(fitting(s, budget) as int)) <= budget,
        fitting(s, budget) < s.len() ==> text::utf8_len(s.take(fitting(s, budget) as int + 1)) > budget,
    decreases s.len(),
{
    if text::utf8_len(s) <= budget || s.len() == 0 {
        assert(s.take(s.len() as int) =~= s);
        text::lemma_utf8_len_bounds(s);
    } else {
        let t = s.drop_last();
        let k = fitting(t, budget);
        lemma_fitting_bounds(t, budget);
        assert(t.take(k as int) =~= s.take(k as int));
        if k < t.len() {
            assert(t.take(k as int + 1) =~= s.take(k as int + 1));
        } else {
            assert(s.take(k as int + 1) =~= s);
        }
    }
}

/// What truncation to [`MAX_NAME_LEN`] bytes does to a name that is too long:
/// it keeps some of its beginning, and nothing else but its short extension.
proof fn lemma_truncated(s: Seq<char>)
    requires
        text::utf8_len(s) > MAX_NAME_LEN,
    ensures
        exists|k: int|
            0 < k <= s.len() - short_extension(s).len() && #[trigger] s.take(k) + short_extension(
                s,
            ) == truncated(s, MAX_NAME_LEN as nat),
        text::utf8_len(truncated(s, MAX_NAME_LEN as nat)) <= MAX_NAME_LEN,
{
    let ext = short_extension(s);
    let stem = s.take(s.len() - ext.len());
    let max = MAX_NAME_LEN as nat;
    lemma_last_dot(s);
    text::lemma_utf8_len_bounds(ext);
    assert(text::utf8_len(ext) <= 16);
    let budget = (max - text::utf8_len(ext)) as nat;
    let k = fitting(stem, budget);
    lemma_fitting_bounds(stem, budget);
    text::lemma_utf8_len_concat(stem, ext);
    assert(stem + ext =~= s);
    assert(text::utf8_len(stem) > budget);
    if k == stem.len() {
        assert(stem.take(k as int) =~= stem);
    }
    assert(k < stem.len());
    text::lemma_utf8_len_bounds(stem.take(k as int + 1));
    assert(4 * (k + 1) > budget >= 104);
    text::lemma_utf8_len_concat(stem.take(k as int), ext);
    assert(stem.take(k as int) =~= s.take(k as int));
    assert(s.take(k as int) + ext == truncated(s, max));
}

/// Shortening leaves a name of at most [`MAX_NAME_LEN`] bytes that does not end
/// in a dot or a space, made of characters of the name and beginning with its
/// first one; or the fallback. It leaves a name alone that is like that.
proof fn lemma_shortened(s: Seq<char>)
    ensures
        shortened(s).len() > 0,
        shortened(s).last() != '.',
        shortened(s).last() != ' ',
        text::utf8_len(shortened(s)) <= MAX_NAME_LEN,
        shortened(s) == fallback_name() || (s.len() > 0 && shortened(s)[0] == s[0] && forall|i: int|
            0 <= i < shortened(s).len() ==> s.contains(#[trigger] shortened(s)[i])),
        s.len() > 0 && s.last() != '.' && s.last() != ' ' && text::utf8_len(s) <= MAX_NAME_LEN
            ==> shortened(s) == s,
{
    lemma_fallback();
    let max = MAX_NAME_LEN as nat;
    let t = truncated(s, max);
    let r = strip_tail(t);
    lemma_strip_tail_prefix(t);
    if text::utf8_len(s) > max {
        lemma_truncated(s);
        let ext = short_extension(s);
        let k = choose|k: int| 0 < k <= s.len() - ext.len() && #[trigger] s.take(k) + ext == t;
        lemma_last_dot(s);
        assert forall|i: int| 0 <= i < t.len() implies s.contains(#[trigger] t[i]) by {
            if i < k {
                assert(t[i] == s[i]);
            } else {
                assert(t[i] == s[s.len() - ext.len() + i - k]);
            }
        }
        assert(t[0] == s[0]);
    }
    if r.len() > 0 {
        lemma_utf8_len_take(t, r.len() as int, t.len() as int);
        assert forall|i: int| 0 <= i < r.len() implies s.contains(#[trigger] r[i]) by {
            assert(r[i] == t[i]);
        }
    }
}

/// A sanitized name is never empty and holds no path separator, control
/// character or character that Windows refuses: joined to a directory, it names
/// a direct child of it.
pub proof fn law_sanitized_is_safe(raw: Seq<char>)
    ensures
        sanitized(raw).len() > 0,
        all_kept(sanitized(raw)),
        separator_free(sanitized(raw)),
        sanitized(raw) != seq!['.'],
        sanitized(raw) != seq!['.', '.'],
{
    lemma_fallback();
    lemma_cleaned(raw);
    lemma_sanitized_chars(raw, |c: char| is_kept(c));
    law_sanitized_has_no_tail(raw);
    let r = sanitized(raw);
    assert(seq!['.'].last() == '.');
    assert(seq!['.', '.'].last() == '.');
    assert forall|i: int| 0 <= i < r.len() implies is_kept(#[trigger] r[i]) by {
        let f = |c: char| is_kept(c);
        assert(f(r[i]));
    }
    assert forall|i: int| 0 <= i < r.len() implies !is_separator(#[trigger] r[i]) by {
        assert(is_kept(r[i]));
    }
}

/// What holds of the kept characters of a name, of the underscore and of the
/// letters of the fallback holds of all characters of the sanitized name.
proof fn lemma_sanitized_chars(raw: Seq<char>, p: spec_fn(char) -> bool)
    requires
        forall|i: int| 0 <= i < cleaned(raw).len() ==> p(#[trigger] cleaned(raw)[i]),
        forall|i: int| 0 <= i < fallback_name().len() ==> p(#[trigger] fallback_name()[i]),
        p('_'),
    ensures
        forall|i: int| 0 <= i < sanitized(raw).len() ==> p(#[trigger] sanitized(raw)[i]),
{
    let c = cleaned(raw);
    let n = shortened(c);
    lemma_shortened(c);
    assert forall|i: int| 0 <= i < n.len() implies p(#[trigger] n[i]) by {
        if n != fallback_name() {
            assert(c.contains(n[i]));
            let j = choose|j: int| 0 <= j < c.len() && c[j] == n[i];
            assert(p(c[j]));
        }
    }
    let u = seq!['_'] + n;
    let r = shortened(u);
    lemma_shortened(u);
    assert forall|i: int| 0 <= i < r.len() implies p(#[trigger] r[i]) by {
        if r != fallback_name() {
            assert(u.contains(r[i]));
            let j = choose|j: int| 0 <= j < u.len() && u[j] == r[i];
            if j > 0 {
                assert(u[j] == n[j - 1]);
            }
        }
    }
}

/// A sanitized name takes at most [`MAX_NAME_LEN`] bytes.
pub proof fn law_sanitized_fits(raw: Seq<char>)
    ensures
        text::utf8_len(sanitized(raw)) <= MAX_NAME_LEN,
{
    lemma_shortened(cleaned(raw));
    lemma_shortened(seq!['_'] + shortened(cleaned(raw)));
}

/// A sanitized name does not end in a dot or a space.
pub proof fn law_sanitized_has_no_tail(raw: Seq<char>)
    ensures
        sanitized(raw).len() > 0,
        sanitized(raw).last() != '.',
        sanitized(raw).last() != ' ',
{
    lemma_shortened(cleaned(raw));
    lemma_shortened(seq!['_'] + shortened(cleaned(raw)));
}

/// A sanitized name is no Windows device name, with or without an extension.
pub proof fn law_sanitized_is_not_reserved(raw: Seq<char>)
    ensures
        !is_reserved(text::upper_all(first_part(sanitized(raw)))),
{
    lemma_fallback();
    let name = shortened(cleaned(raw));
    let r = sanitized(raw);
    if is_reserved(text::upper_all(first_part(name))) {
        lemma_shortened(seq!['_'] + name);
        if r != fallback_name() {
            assert(r[0] == '_');
            let u = text::upper_all(first_part(r));
            lemma_first_part(r, 1);
            assert(first_part(r)[0] == '_');
            assert(u[0] == '_');
            assert(u.len() == 4 ==> u.take(3)[0] == '_');
            assert(seq!['C', 'O', 'N'][0] == 'C');
            assert(seq!['P', 'R', 'N'][0] == 'P');
            assert(seq!['A', 'U', 'X'][0] == 'A');
            assert(seq!['N', 'U', 'L'][0] == 'N');
            assert(seq!['C', 'O', 'M'][0] == 'C');
            assert(seq!['L', 'P', 'T'][0] == 'L');
        }
    }
}

/// All characters of a text are ASCII.
pub open spec fn is_ascii_text(s: Seq<char>) -> bool {
    forall|i: int| 0 <= i < s.len() ==> #[trigger] s[i] <= '\u{7f}'
}

/// Sanitizing an ASCII name twice gives the same as doing it once.
pub proof fn law_sanitizing_is_stable(raw: Seq<char>)
    requires
        is_ascii_text(raw),
    ensures
        sanitized(sanitized(raw)) == sanitized(raw),
{
    let r = sanitized(raw);
    law_sanitized_is_safe(raw);
    law_sanitized_fits(raw);
    law_sanitized_has_no_tail(raw);
    law_sanitized_is_not_reserved(raw);
    lemma_cleaned_from(raw);
    lemma_fallback();
    let p = |c: char| c <= '\u{7f}';
    assert forall|i: int| 0 <= i < cleaned(raw).len() implies p(#[trigger] cleaned(raw)[i]) by {
        let j = choose|j: int| 0 <= j < raw.len() && raw[j] == cleaned(raw)[i];
        assert(raw[j] <= '\u{7f}');
    }
    lemma_sanitized_chars(raw, p);
    lemma_sanitized_start(raw);
    assert(p(r.last()));
    assert(is_kept(r.last()));
    lemma_cleaned_stays(r);
    lemma_shortened(r);
}

/// A clamped string is at most one character longer than its limit, and it is
/// a single line.
pub proof fn law_clamped(s: Seq<char>, max: nat)
    ensures
        clamped(s, max).len() <= max + 1,
        s.len() <= max ==> clamped(s, max).len() == s.len(),
        forall|i: int|
            0 <= i < clamped(s, max).len() ==> {
                let c = #[trigger] clamped(s, max)[i];
                c != '\r' && c != '\n' && c != '\0'
            },
{
}

/// Clamping what is clamped already changes nothing.
pub proof fn law_clamped_is_stable(s: Seq<char>, max: nat)
    ensures
        clamped(clamped(s, max), max) == clamped(s, max),
{
    let c = clamped(s, max);
    assert(clamped(c, max) =~= c);
}

proof fn lemma_decimal_injective(m: nat, n: nat)
    requires
        text::decimal(m) == text::decimal(n),
    ensures
        m == n,
    decreases m + n,
{
    text::lemma_decimal_len(m);
    text::lemma_decimal_len(n);
    let a = text::decimal(m);
    let b = text::decimal(n);
    assert(a.last() == b.last());
    assert(a.last() == text::digit(m % 10));
    assert(b.last() == text::digit(n % 10));
    text::lemma_digit_injective(m % 10, n % 10);
    if m >= 10 && n >= 10 {
        assert(a.drop_last() =~= text::decimal(m / 10));
        assert(b.drop_last() =~= text::decimal(n / 10));
        lemma_decimal_injective(m / 10, n / 10);
    }
}

/// No name is tried twice for one file.
pub proof fn law_candidates_are_distinct(name: Seq<char>, m: nat, n: nat)
    requires
        m != n,
    ensures
        candidate(name, m) != candidate(name, n),
{
    lemma_last_dot(name);
    let at = number_at(name);
    if m == 0 || n == 0 {
        assert(candidate(name, m).len() != candidate(name, n).len());
    } else if candidate(name, m) == candidate(name, n) {
        let a = candidate(name, m);
        let b = candidate(name, n);
        let dm = text::decimal(m);
        let dn = text::decimal(n);
        assert(a.len() == name.len() + 3 + dm.len());
        assert(b.len() == name.len() + 3 + dn.len());
        assert(a.subrange(at + 2, at + 2 + dm.len()) =~= dm);
        assert(b.subrange(at + 2, at + 2 + dn.len()) =~= dn);
        lemma_decimal_injective(m, n);
    }
}

proof fn lemma_last_dot(s: Seq<char>)
    ensures
        -1 <= last_dot(s) < s.len(),
    decreases s.len(),
{
    if s.len() > 0 && s.last() != '.' {
        lemma_last_dot(s.drop_last());
    }
}

/// Every name that is tried for a file whose own name holds no separator
/// holds none either.
pub proof fn law_candidates_stay_inside(name: Seq<char>, n: nat)
    requires
        separator_free(name),
    ensures
        separator_free(candidate(name, n)),
{
    lemma_last_dot(name);
    text::lemma_decimal_digits(n);
    let at = number_at(name);
    let c = candidate(name, n);
    assert forall|i: int| 0 <= i < c.len() implies !is_separator(#[trigger] c[i]) by {
        if n > 0 {
            let d = text::decimal(n);
            if i < at {
                assert(c[i] == name[i]);
            } else if at + 2 <= i < at + 2 + d.len() {
                assert(c[i] == d[i - at - 2]);
            } else if i >= at + 3 + d.len() {
                assert(c[i] == name[i - 3 - d.len()]);
            }
        }
    }
}

/// The path of a separator-free name inside a directory ends in that name.
pub proof fn law_joined_is_a_child(dir: Seq<char>, name: Seq<char>)
    requires
        separator_free(name),
        dir.len() > 0,
    ensures
        last_component(joined(dir, name)) == name,
    decreases name.len(),
{
    let p = joined(dir, name);
    if name.len() == 0 {
        assert(p.last() == '/');
        assert(last_component(p) =~= name);
    } else {
        let q = joined(dir, name.drop_last());
        assert(p.drop_last() =~= q);
        assert(p.last() == name.last());
        assert forall|i: int| 0 <= i < name.drop_last().len() implies !is_separator(
            #[trigger] name.drop_last()[i],
        ) by {
            assert(name.drop_last()[i] == name[i]);
        }
        law_joined_is_a_child(dir, name.drop_last());
        assert(last_component(p) =~= name);
    }
}

} // verus!
