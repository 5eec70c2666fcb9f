//! What holds of the helpers' calls: safe names, short lines, local addresses
//! and the texts of numbers.

use vstd::prelude::*;
use crate::engine::laws::talking;
use crate::engine::uri;
use crate::text;
use crate::util;
use crate::util::{IpAddr, UniquePath};

verus! {

/// A character that no file name may hold.
pub open spec fn is_unsafe(c: char) -> bool {
    ||| c <= '\u{1f}'
    ||| '\u{7f}' <= c <= '\u{9f}'
    ||| c == '/'
    ||| c == '\\'
    ||| c == ':'
    ||| c == '<'
    ||| c == '>'
    ||| c == '"'
    ||| c == '|'
    ||| c == '?'
    ||| c == '*'
}

/// A text is a word of capital letters, in whatever case it is written.
pub open spec fn spells(s: Seq<char>, word: Seq<char>) -> bool {
    &&& s.len() == word.len()
    &&& forall|i: int|
        0 <= i < s.len() ==> #[trigger] s[i] == word[i] || 'A' <= word[i] <= 'Z' && s[i] as int
            == word[i] as int + 32
}

/// A name that stands for a device on Windows.
pub open spec fn is_device(s: Seq<char>) -> bool {
    ||| spells(s, seq!['C', 'O', 'N'])
    ||| spells(s, seq!['P', 'R', 'N'])
    ||| spells(s, seq!['A', 'U', 'X'])
    ||| spells(s, seq!['N', 'U', 'L'])
    ||| s.len() == 4 && '1' <= s[3] <= '9' && (spells(s.take(3), seq!['C', 'O', 'M']) || spells(
        s.take(3),
        seq!['L', 'P', 'T'],
    ))
}

proof fn lemma_spells(s: Seq<char>, word: Seq<char>)
    requires
        forall|i: int| 0 <= i < word.len() ==> 'A' <= #[trigger] word[i] <= 'Z',
    ensures
        spells(s, word) <==> text::upper_all(s) == word,
{
    let u = text::upper_all(s);
    if spells(s, word) {
        assert forall|i: int| 0 <= i < word.len() implies u[i] == #[trigger] word[i] by {
            assert(s[i] == word[i] || s[i] as int == word[i] as int + 32);
        }
        assert(u =~= word);
    }
    if u == word {
        assert forall|i: int| 0 <= i < s.len() implies #[trigger] s[i] == word[i] || 'A' <= word[i]
            <= 'Z' && s[i] as int == word[i] as int + 32 by {
            assert(u[i] == word[i]);
        }
    }
}

proof fn lemma_is_device(s: Seq<char>)
    ensures
        is_device(s) <==> util::is_reserved(text::upper_all(s)),
{
    let u = text::upper_all(s);
    lemma_spells(s, seq!['C', 'O', 'N']);
    lemma_spells(s, seq!['P', 'R', 'N']);
    lemma_spells(s, seq!['A', 'U', 'X']);
    lemma_spells(s, seq!['N', 'U', 'L']);
    if s.len() == 4 {
        lemma_spells(s.take(3), seq!['C', 'O', 'M']);
        lemma_spells(s.take(3), seq!['L', 'P', 'T']);
        assert(text::upper_all(s.take(3)) =~= u.take(3));
        assert(u[3] == text::upper(s[3]));
    }
}

proof fn lemma_stem(s: Seq<char>, k: int)
    requires
        0 <= k <= s.len(),
        k < s.len() ==> s[k] == '.',
        forall|i: int| 0 <= i < k ==> #[trigger] s[i] != '.',
    ensures
        util::first_part(s) == s.take(k),
    decreases k,
{
    if k > 0 {
        let t = s.skip(1);
        assert forall|i: int| 0 <= i < k - 1 implies #[trigger] t[i] != '.' by {
            assert(t[i] == s[i + 1]);
        }
        assert(s[0] != '.');
        lemma_stem(t, k - 1);
        assert(seq![s[0]] + t.take(k - 1) =~= s.take(k));
    } else {
        assert(util::first_part(s) =~= s.take(k));
    }
}

/// Whatever a peer calls a file, the name that it gets is not empty, holds no
/// unsafe character, ends in neither a dot nor a space, has at most 120 bytes,
/// and names no device.
pub proof fn law_file_names_are_safe(raw: &str, r: String, i: int, k: int)
    requires
        call_ensures(util::sanitize_filename, (raw,), r),
        0 <= i < r@.len(),
        0 <= k <= r@.len(),
        k < r@.len() ==> r@[k] == '.',
        forall|j: int| 0 <= j < k ==> #[trigger] r@[j] != '.',
    ensures
        !is_unsafe(r@[i]),
        r@.last() != '.',
        r@.last() != ' ',
        text::utf8_len(r@) <= 120,
        !is_device(r@.take(k)),
{
    util::law_sanitized_is_safe(raw@);
    util::law_sanitized_fits(raw@);
    util::law_sanitized_has_no_tail(raw@);
    util::law_sanitized_is_not_reserved(raw@);
    assert(util::is_kept(r@[i]));
    lemma_stem(r@, k);
    lemma_is_device(r@.take(k));
}

/// A file always has a name.
pub proof fn law_files_have_names(raw: &str, r: String)
    requires
        call_ensures(util::sanitize_filename, (raw,), r),
    ensures
        r@.len() > 0,
{
    util::law_sanitized_is_safe(raw@);
}

/// A name that is safe already is kept as it is; one that names a device gets
/// an underscore in front.
pub proof fn law_safe_names_are_kept(raw: &str, r: String, k: int)
    requires
        call_ensures(util::sanitize_filename, (raw,), r),
        raw@.len() > 0,
        forall|i: int| 0 <= i < raw@.len() ==> !is_unsafe(#[trigger] raw@[i]),
        !text::is_white(raw@[0]),
        !text::is_white(raw@.last()),
        raw@.last() != '.',
        text::utf8_len(raw@) <= 119,
        0 <= k <= raw@.len(),
        k < raw@.len() ==> raw@[k] == '.',
        forall|j: int| 0 <= j < k ==> #[trigger] raw@[j] != '.',
    ensures
        !is_device(raw@.take(k)) ==> r@ == raw@,
        is_device(raw@.take(k)) ==> r@ == seq!['_'] + raw@,
{
    let s = raw@;
    assert forall|i: int| 0 <= i < s.len() implies util::is_kept(#[trigger] s[i]) by {}
    assert forall|i: int| 0 <= i < s.len() implies !util::is_separator(#[trigger] s[i]) by {}
    util::lemma_cleaned_stays(s);
    util::lemma_shortened(s);
    lemma_stem(s, k);
    lemma_is_device(s.take(k));
    let u = seq!['_'] + s;
    text::lemma_utf8_len_concat(seq!['_'], s);
    text::lemma_utf8_len_one('_');
    util::lemma_shortened(u);
    assert(u.last() == s.last());
}

/// Where a peer says that a file lies does not matter: only what follows the
/// last separator counts, be it a slash or a backslash.
pub proof fn law_directories_are_dropped(
    raw: &str,
    name: &str,
    dir: Seq<char>,
    c: char,
    r: String,
    of_name: String,
)
    requires
        c == '/' || c == '\\',
        raw@ == dir.push(c) + name@,
        call_ensures(util::sanitize_filename, (raw,), r),
        call_ensures(util::sanitize_filename, (name,), of_name),
    ensures
        r@ == of_name@,
{
    lemma_component(dir.push(c), name@);
}

proof fn lemma_component(dir: Seq<char>, name: Seq<char>)
    requires
        dir.len() > 0,
        dir.last() == '/' || dir.last() == '\\',
    ensures
        util::last_component(dir + name) == util::last_component(name),
    decreases name.len(),
{
    let s = dir + name;
    if name.len() > 0 {
        assert(s.last() == name.last());
        assert(s.drop_last() =~= dir + name.drop_last());
        lemma_component(dir, name.drop_last());
    } else {
        assert(s =~= dir);
    }
}

/// Unsafe characters inside a name are dropped, and the rest is as if they had
/// never been there.
pub proof fn law_unsafe_characters_are_dropped(
    a: Seq<char>,
    c: char,
    b: Seq<char>,
    raw: &str,
    plain: &str,
    r: String,
    of_plain: String,
)
    requires
        raw@ == a.push(c) + b,
        plain@ == a + b,
        is_unsafe(c),
        c != '/',
        c != '\\',
        a.len() > 0,
        b.len() > 0,
        !text::is_white(a[0]),
        !text::is_white(b.last()),
        forall|i: int| 0 <= i < a.len() ==> #[trigger] a[i] != '/' && a[i] != '\\',
        forall|i: int| 0 <= i < b.len() ==> #[trigger] b[i] != '/' && b[i] != '\\',
        call_ensures(util::sanitize_filename, (raw,), r),
        call_ensures(util::sanitize_filename, (plain,), of_plain),
    ensures
        r@ == of_plain@,
{
    let s = raw@;
    let t = plain@;
    let keep = |x: char| util::is_kept(x);
    assert forall|i: int| 0 <= i < s.len() implies !util::is_separator(#[trigger] s[i]) by {
        if i < a.len() {
            assert(s[i] == a[i]);
        } else if i > a.len() {
            assert(s[i] == b[i - a.len() - 1]);
        }
    }
    assert forall|i: int| 0 <= i < t.len() implies !util::is_separator(#[trigger] t[i]) by {
        if i < a.len() {
            assert(t[i] == a[i]);
        } else {
            assert(t[i] == b[i - a.len()]);
        }
    }
    util::lemma_no_separator(s);
    util::lemma_no_separator(t);
    assert(s[0] == a[0] && t[0] == a[0] && s.last() == b.last() && t.last() == b.last());
    assert(text::trim(s) == s);
    assert(text::trim(t) == t);
    assert(!keep(c));
    Seq::filter_distributes_over_add(a.push(c), b, keep);
    Seq::filter_distributes_over_add(a, b, keep);
    assert(a.push(c).filter(keep) == a.filter(keep)) by {
        reveal(Seq::filter);
        assert(a.push(c).drop_last() =~= a);
    }
}

/// A name of which nothing is left is replaced.
pub proof fn law_nothing_left_of_a_name(raw: &str, r: String)
    requires
        call_ensures(util::sanitize_filename, (raw,), r),
        forall|i: int| 0 <= i < raw@.len() ==> #[trigger] raw@[i] == '.' || raw@[i] == ' ',
    ensures
        r@ == "received_file"@,
{
    let s = raw@;
    let keep = |x: char| util::is_kept(x);
    assert forall|i: int| 0 <= i < s.len() implies !util::is_separator(#[trigger] s[i]) by {}
    util::lemma_no_separator(s);
    util::lemma_trim_inside(s);
    let t = text::trim(s);
    assert forall|i: int| 0 <= i < t.len() implies #[trigger] t[i] == '.' || t[i] == ' ' by {
        assert(s.contains(t[i]));
    }
    assert forall|i: int| 0 <= i < t.len() implies util::is_kept(#[trigger] t[i]) by {}
    util::lemma_all_kept_stay(t);
    lemma_only_tail(t);
    util::lemma_fallback();
    let e = Seq::<char>::empty();
    text::lemma_utf8_len_bounds(e);
    assert(util::cleaned(s) =~= e);
    assert(util::shortened(e) == util::fallback_name());
    reveal_strlit("received_file");
    let f = "received_file"@;
    lemma_stem(f, 13);
    assert(text::upper_all(f.take(13)).len() == 13);
    assert(!util::is_reserved(text::upper_all(util::first_part(f))));
}

proof fn lemma_only_tail(s: Seq<char>)
    requires
        forall|i: int| 0 <= i < s.len() ==> #[trigger] s[i] == '.' || s[i] == ' ',
    ensures
        util::strip_tail(s).len() == 0,
    decreases s.len(),
{
    if s.len() > 0 {
        let t = s.drop_last();
        assert forall|i: int| 0 <= i < t.len() implies #[trigger] t[i] == '.' || t[i] == ' ' by {
            assert(t[i] == s[i]);
        }
        assert(s[s.len() - 1] == '.' || s[s.len() - 1] == ' ');
        lemma_only_tail(t);
    }
}

/// What fits is kept. Otherwise as much of the beginning is kept as there is
/// room for, and behind it the extension, if that has at most 16 bytes with its
/// dot.
pub proof fn law_long_names_keep_their_extension(
    name: &str,
    max: usize,
    r: String,
    dot: int,
    k: int,
)
    requires
        call_ensures(util::truncate_keeping_extension, (name, max), r),
        0 < dot < name@.len(),
        name@[dot] == '.',
        forall|i: int| dot < i < name@.len() ==> #[trigger] name@[i] != '.',
        text::utf8_len(name@.skip(dot)) <= 16,
        0 < k < dot,
        text::utf8_len(name@.take(k)) + text::utf8_len(name@.skip(dot)) <= max,
        text::utf8_len(name@.take(k + 1)) + text::utf8_len(name@.skip(dot)) > max,
    ensures
        r@ == name@.take(k) + name@.skip(dot),
{
    let s = name@;
    lemma_dot(s, dot);
    let ext = s.skip(dot);
    let stem = s.take(s.len() - ext.len());
    assert(stem =~= s.take(dot));
    assert(stem.take(k) =~= s.take(k));
    assert(stem.take(k + 1) =~= s.take(k + 1));
    text::lemma_utf8_len_concat(s.take(dot), ext);
    assert(s.take(dot) + ext =~= s);
    util::lemma_utf8_len_take(s.take(dot), k + 1, dot);
    util::lemma_fitting(stem, (max - text::utf8_len(ext)) as nat, k);
}

/// Without a short extension only the beginning is kept.
pub proof fn law_long_names_without_extension(name: &str, max: usize, r: String, k: int)
    requires
        call_ensures(util::truncate_keeping_extension, (name, max), r),
        forall|i: int|
            0 < i < name@.len() ==> #[trigger] name@[i] != '.' || text::utf8_len(name@.skip(i))
                > 16,
        0 < k < name@.len(),
        text::utf8_len(name@.take(k)) <= max,
        text::utf8_len(name@.take(k + 1)) > max,
    ensures
        r@ == name@.take(k),
{
    let s = name@;
    util::lemma_last_dot(s);
    lemma_dot_is_dot(s);
    let e = Seq::<char>::empty();
    text::lemma_utf8_len_bounds(e);
    assert(util::short_extension(s) =~= e);
    assert(s.take(s.len() as int) =~= s);
    util::lemma_utf8_len_take(s, k + 1, s.len() as int);
    util::lemma_fitting(s, max as nat, k);
    assert(s.take(k) + e =~= s.take(k));
}

/// What fits is kept as it is.
pub proof fn law_short_names_are_kept(name: &str, max: usize, r: String)
    requires
        call_ensures(util::truncate_keeping_extension, (name, max), r),
    ensures
        text::utf8_len(name@) <= max ==> r@ == name@,
{
}

proof fn lemma_dot(s: Seq<char>, dot: int)
    requires
        0 <= dot < s.len(),
        s[dot] == '.',
        forall|i: int| dot < i < s.len() ==> #[trigger] s[i] != '.',
    ensures
        util::last_dot(s) == dot,
    decreases s.len(),
{
    if dot < s.len() - 1 {
        let t = s.drop_last();
        assert(s[s.len() - 1] != '.');
        assert forall|i: int| dot < i < t.len() implies #[trigger] t[i] != '.' by {
            assert(t[i] == s[i]);
        }
        lemma_dot(t, dot);
    }
}

proof fn lemma_dot_is_dot(s: Seq<char>)
    ensures
        util::last_dot(s) >= 0 ==> util::last_dot(s) < s.len() && s[util::last_dot(s)] == '.',
    decreases s.len(),
{
    if s.len() > 0 && s.last() != '.' {
        lemma_dot_is_dot(s.drop_last());
    }
}

/// A clamped text is the text in one line, with the mark of a cut where it is
/// too long.
pub proof fn law_clamped_text_is_one_line(s: &str, max: usize, r: String)
    requires
        call_ensures(util::clamp_str, (s, max), r),
    ensures
        talking::is_short_line_of(r@, s@, max as int),
{
    talking::lemma_clamped_is_line(s@, max as nat);
}

/// A cut text is the beginning of the text.
pub proof fn law_cut_text_is_the_beginning(s: &str, max: usize, r: String)
    requires
        call_ensures(util::cut_str, (s, max), r),
    ensures
        r@.is_prefix_of(s@),
        r@.len() == s@.len() || r@.len() == max < s@.len(),
{
}

/// A size below 1024 is shown to the byte.
pub proof fn law_small_sizes_are_exact(n: u64, digits: String, r: String)
    requires
        call_ensures(util::human_bytes, (n,), r),
        call_ensures(text::decimal_text, (n,), digits),
        n < 1024,
    ensures
        r@ == digits@ + " B"@,
{
    lemma_exact(n);
}

/// A number of at most 53 bits is not rounded.
proof fn lemma_exact(n: u64)
    requires
        n < 0x20_0000_0000_0000,
    ensures
        util::to_53_bits(n as nat) == n,
{
    assert(util::last_bit(n as nat) == 1);
    assert(n as nat / 1 == n && n as nat % 1 == 0);
    assert(util::half_even(n as nat, 1) * 1 == n);
}

/// The unit of a size, and its name.
pub open spec fn is_unit(n: u64, unit: int, name: Seq<char>) -> bool {
    ||| 1024 <= n < 0x10_0000 && unit == 1024 && name == "KiB"@
    ||| 0x10_0000 <= n < 0x4000_0000 && unit == 0x10_0000 && name == "MiB"@
    ||| 0x4000_0000 <= n < 0x100_0000_0000 && unit == 0x4000_0000 && name == "GiB"@
    ||| 0x100_0000_0000 <= n && unit == 0x100_0000_0000 && name == "TiB"@
}

/// A larger size is shown in the largest unit that it reaches, with one digit
/// behind the point, off by half of that digit at most.
pub proof fn law_large_sizes_are_rounded(n: u64, unit: int, name: Seq<char>, r: String)
    requires
        call_ensures(util::human_bytes, (n,), r),
        is_unit(n, unit, name),
        n < 0x20_0000_0000_0000,
    ensures
        exists|t: nat|
            r@ == #[trigger] text::decimal(t / 10) + "."@ + text::decimal(t % 10) + " "@ + name
                && 2 * (10 * n - t * unit) <= unit && 2 * (t * unit - 10 * n) <= unit,
{
    lemma_exact(n);
    let t = util::half_even((10 * n) as nat, unit as nat);
    let q = (10 * n) as nat / unit as nat;
    let rest = (10 * n) as nat % unit as nat;
    assert(10 * n == q * unit + rest && 0 <= rest < unit) by (nonlinear_arith)
        requires
            q == (10 * n) as nat / unit as nat,
            rest == (10 * n) as nat % unit as nat,
            unit > 0,
            n >= 0,
    ;
    assert((q + 1) * unit == q * unit + unit) by (nonlinear_arith);
    assert(r@ == text::decimal(t / 10) + "."@ + text::decimal(t % 10) + " "@ + name);
}

/// Which addresses belong to a local network: the private, link-local, loopback
/// and carrier-grade ranges of IPv4, and the loopback, unique local and
/// link-local ones of IPv6.
pub proof fn law_which_addresses_are_local(ip: IpAddr, r: bool)
    requires
        call_ensures(util::is_lan_addr, (ip,), r),
    ensures
        ip matches IpAddr::V4(a) ==> (r <==> {
            ||| 0x0a00_0000 <= a <= 0x0aff_ffff
            ||| 0xac10_0000 <= a <= 0xac1f_ffff
            ||| 0xc0a8_0000 <= a <= 0xc0a8_ffff
            ||| 0xa9fe_0000 <= a <= 0xa9fe_ffff
            ||| 0x7f00_0000 <= a <= 0x7fff_ffff
            ||| 0x6440_0000 <= a <= 0x647f_ffff
        }),
        ip matches IpAddr::V6(a) ==> (r <==> {
            ||| a == 1
            ||| 0xfc00_0000_0000_0000_0000_0000_0000_0000 <= a
                <= 0xfdff_ffff_ffff_ffff_ffff_ffff_ffff_ffff
            ||| 0xfe80_0000_0000_0000_0000_0000_0000_0000 <= a
                <= 0xfebf_ffff_ffff_ffff_ffff_ffff_ffff_ffff
        }),
{
}

/// The path of a file is that of its directory, a slash unless there is one, and
/// its name.
pub proof fn law_path_is_directory_and_name(dir: &str, name: &str, r: String)
    requires
        call_ensures(util::join_path, (dir, name), r),
    ensures
        dir@.len() > 0 && dir@.last() != '/' ==> r@ == dir@ + "/"@ + name@,
        dir@.len() == 0 || dir@.last() == '/' ==> r@ == dir@ + name@,
{
    reveal_strlit("/");
    assert(dir@.push('/') =~= dir@ + "/"@);
}

/// The first name to try for a file is its own; the later ones have their number
/// in brackets before the extension.
pub proof fn law_which_names_are_tried(name: &str, n: u64, digits: String, r: String, dot: int)
    requires
        call_ensures(util::candidate_name, (name, n), r),
        call_ensures(text::decimal_text, (n,), digits),
        0 < dot <= name@.len(),
        dot < name@.len() ==> name@[dot] == '.',
        forall|i: int| dot < i < name@.len() ==> #[trigger] name@[i] != '.',
        dot == name@.len() ==> forall|i: int| 0 < i < name@.len() ==> #[trigger] name@[i] != '.',
    ensures
        n == 0 ==> r@ == name@,
        n > 0 ==> r@ == name@.take(dot) + " ("@ + digits@ + ")"@ + name@.skip(dot),
{
    reveal_strlit(" (");
    reveal_strlit(")");
    assert(" ("@ =~= seq![' ', '(']);
    assert(")"@ =~= seq![')']);
    if dot < name@.len() {
        lemma_dot(name@, dot);
    } else {
        lemma_dot_is_dot(name@);
    }
}

/// The search for a free path starts with the name itself, tries one name after
/// the other, and stops at the first path where nothing is.
pub proof fn law_search_for_a_free_path(
    dir: &str,
    name: &str,
    started: &UniquePath,
    first: String,
    expected: String,
    u: &mut UniquePath,
    there: bool,
    after: &UniquePath,
    next: String,
    done: bool,
    candidate: String,
    shown: &str,
    next_expected: String,
    at: &str,
    called: &str,
    n: u64,
)
    requires
        call_ensures(util::unique_path, (dir, name), *started),
        call_ensures(UniquePath::path, (started,), first),
        call_ensures(util::join_path, (dir, name), expected),
        call_ensures(UniquePath::answer, (u, there), ()),
        *after == *final(u),
        call_ensures(UniquePath::path, (after,), next),
        call_ensures(UniquePath::settled, (after,), done),
        at@ == old(u).dir@,
        called@ == old(u).name@,
        n == old(u).tries + if there {
            1int
        } else {
            0int
        },
        call_ensures(util::candidate_name, (called, n), candidate),
        shown@ == candidate@,
        call_ensures(util::join_path, (at, shown), next_expected),
    ensures
        first@ == expected@,
        started.tries == 0,
        !started.free,
        done == !there,
        next@ == next_expected@,
        final(u).tries == n,
        final(u).dir == old(u).dir,
        final(u).name == old(u).name,
{
}

/// A number is written as those of its tens and its last digit.
pub proof fn law_numbers_are_written_digit_by_digit(n: u64, r: String, tens: String)
    requires
        call_ensures(text::decimal_text, (n,), r),
        call_ensures(text::decimal_text, (n / 10,), tens),
    ensures
        n < 10 ==> r@ == seq![(n + 48) as u8 as char],
        n >= 10 ==> r@ == tens@.push((n % 10 + 48) as u8 as char),
{
}

/// A number is read as what was written.
pub proof fn law_written_numbers_are_read(n: u64, r: String, s: &str, max: u64, read: Option<u64>)
    requires
        call_ensures(text::decimal_text, (n,), r),
        s@ == r@,
        call_ensures(uri::parse_number, (s, max), read),
    ensures
        n <= max ==> read == Some(n),
        n > max ==> read is None,
{
    uri::lemma_dec_value(n as nat);
    let d = text::decimal(n as nat);
    assert('0' <= d[0] <= '9');
}

/// A padded number has the asked width, and ends in its last digits.
pub proof fn law_padded_numbers(n: u64, width: usize, r: String, shorter: String)
    requires
        width > 0,
        call_ensures(text::padded_text, (n, width), r),
        call_ensures(text::padded_text, (n / 10, (width - 1) as usize), shorter),
    ensures
        r@.len() == width,
        r@ == shorter@.push((n % 10 + 48) as u8 as char),
{
    text::lemma_padded_len(n as nat, width as nat);
}

/// Only white space is trimmed, and only at the ends.
pub proof fn law_trimmed_text_is_the_core(s: &str, r: String, from: int, to: int)
    requires
        call_ensures(text::trim_str, (s,), r),
        talking::is_core_of(s@, from, to),
    ensures
        r@ == s@.subrange(from, to),
{
    talking::lemma_trim_is_core(s@, from, to);
}

/// What counts as white space and what as a control character.
pub proof fn law_kinds_of_characters(c: char, white: bool, control: bool)
    requires
        call_ensures(text::char_is_white, (c,), white),
        call_ensures(text::char_is_control, (c,), control),
    ensures
        white <==> {
            ||| 0x09 <= c as u32 <= 0x0d
            ||| c as u32 == 0x20
            ||| c as u32 == 0x85
            ||| c as u32 == 0xa0
            ||| c as u32 == 0x1680
            ||| 0x2000 <= c as u32 <= 0x200a
            ||| c as u32 == 0x2028
            ||| c as u32 == 0x2029
            ||| c as u32 == 0x202f
            ||| c as u32 == 0x205f
            ||| c as u32 == 0x3000
        },
        control <==> c as u32 <= 0x1f || 0x7f <= c as u32 <= 0x9f,
{
}

/// In lower case the letters A to Z become a to z, and everything else stays.
pub proof fn law_lower_case(s: &str, r: String, i: int)
    requires
        call_ensures(text::lower_str, (s,), r),
        0 <= i < s@.len(),
    ensures
        r@.len() == s@.len(),
        'A' <= s@[i] <= 'Z' ==> r@[i] as int == s@[i] as int + 32,
        !('A' <= s@[i] <= 'Z') ==> r@[i] == s@[i],
{
}

/// Strings are ordered by the first character in which they differ; a string
/// comes before those that it begins.
pub proof fn law_order_of_strings(a: &str, b: &str, r: bool, k: int)
    requires
        call_ensures(text::str_less, (a, b), r),
        0 <= k <= a@.len(),
        k <= b@.len(),
        a@.take(k) == b@.take(k),
        k < a@.len() && k < b@.len() ==> a@[k] != b@[k],
    ensures
        r <==> k < b@.len() && (k == a@.len() || a@[k] < b@[k]),
{
    lemma_order(a@, b@, k);
}

proof fn lemma_order(a: Seq<char>, b: Seq<char>, k: int)
    requires
        0 <= k <= a.len(),
        k <= b.len(),
        a.take(k) == b.take(k),
        k < a.len() && k < b.len() ==> a[k] != b[k],
    ensures
        text::str_lt(a, b) <==> k < b.len() && (k == a.len() || a[k] < b[k]),
    decreases k,
{
    if k > 0 {
        assert(a[0] == a.take(k)[0] && b[0] == b.take(k)[0]);
        assert(a.skip(1).take(k - 1) =~= a.take(k).skip(1));
        assert(b.skip(1).take(k - 1) =~= b.take(k).skip(1));
        if k < a.len() {
            assert(a.skip(1)[k - 1] == a[k]);
        }
        if k < b.len() {
            assert(b.skip(1)[k - 1] == b[k]);
        }
        lemma_order(a.skip(1), b.skip(1), k - 1);
    }
}

/// Strings are equal if they hold the same characters.
pub proof fn law_equal_strings(a: &str, b: &str, r: bool)
    requires
        call_ensures(text::str_eq, (a, b), r),
    ensures
        r <==> a@ == b@,
{
}

} // verus!
