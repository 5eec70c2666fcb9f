//! Pairing links: what is written into one is read out of it again.

use vstd::prelude::*;
use vstd::utf8::*;
use crate::codec;
use crate::engine::laws::talking;
use crate::engine::uri;
use crate::engine::uri::{PairingError, PairingTarget};
use crate::engine::{Action, Engine};
use crate::net::discovery;
use crate::net::discovery::Interface;
use crate::text;
use crate::util::{IpAddr, SocketAddr};

verus! {

/// A link is read as pointing at the device that it was made for: its key, its
/// port (the usual one where it has none), its address and its name.
pub proof fn law_links_are_read_back(
    pk: &[u8],
    port: u16,
    addr: Option<u32>,
    name: &str,
    link: String,
    written: &str,
    host: Option<IpAddr>,
    r: Result<PairingTarget, PairingError>,
)
    requires
        call_ensures(uri::pairing_link, (pk, port, addr, name), link),
        written@ == link@,
        pk@.len() == 32,
        call_ensures(uri::parse_pairing_uri, (written, host), r),
    ensures
        host is None ==> r == Err::<PairingTarget, PairingError>(PairingError::NoHost),
        host matches Some(ip) ==> (r matches Ok(t) && {
            &&& t.public_key@ == pk@
            &&& t.host == ip
            &&& t.port == if port > 0 {
                port
            } else {
                45821
            }
            &&& talking::is_short_line_of(t.name@, name@, 64)
        }),
{
    uri::law_link_host_is_one_param(addr);
    uri::law_link_round_trip(pk@, port, uri::link_host(addr), name@);
    assert forall|k: Seq<u8>| #[trigger] uri::is_link_key(written@, k) implies k == pk@ by {
        codec::lemma_b64_injective(true, k, pk@);
    }
    assert(uri::is_link_key(written@, pk@));
    talking::lemma_clamped_is_line(name@, 64);
}

/// The address that a link names is the own one, digit by digit.
pub proof fn law_links_name_the_own_address(
    pk: &[u8],
    port: u16,
    addr: Option<u32>,
    name: &str,
    link: String,
    written: &str,
    shown: String,
    of: u32,
    r: Option<String>,
)
    requires
        call_ensures(uri::pairing_link, (pk, port, addr, name), link),
        written@ == link@,
        call_ensures(uri::ipv4_text, (of,), shown),
        addr matches Some(a) ==> a == of,
        call_ensures(uri::pairing_host, (written,), r),
    ensures
        r matches Some(h) && h@ == if addr is Some {
            shown@
        } else {
            "0.0.0.0"@
        },
{
    uri::law_link_host_is_one_param(addr);
    uri::law_link_round_trip(pk@, port, uri::link_host(addr), name@);
}

/// An address is shown as its four bytes in decimal with dots between them.
pub proof fn law_addresses_are_shown_dotted(
    a: u32,
    r: String,
    b0: String,
    b1: String,
    b2: String,
    b3: String,
)
    requires
        call_ensures(uri::ipv4_text, (a,), r),
        call_ensures(text::decimal_text, ((a / 0x100_0000) as u64,), b0),
        call_ensures(text::decimal_text, ((a / 0x1_0000 % 0x100) as u64,), b1),
        call_ensures(text::decimal_text, ((a / 0x100 % 0x100) as u64,), b2),
        call_ensures(text::decimal_text, ((a % 0x100) as u64,), b3),
    ensures
        r@ == b0@ + "."@ + b1@ + "."@ + b2@ + "."@ + b3@,
{
}

/// Exactly what starts with the prefix is a link. What is accepted has a key of
/// 32 bytes, an address and a port that is not zero.
pub proof fn law_what_is_a_link(
    written: &str,
    host: Option<IpAddr>,
    r: Result<PairingTarget, PairingError>,
)
    requires
        call_ensures(uri::parse_pairing_uri, (written, host), r),
    ensures
        (r matches Err(e) && e is NotALink) <==> !"syncmob://pair?"@.is_prefix_of(written@),
        r matches Ok(t) ==> t.public_key@.len() == 32 && host == Some(t.host) && t.port > 0,
        host is None ==> r is Err,
{
    let p = "syncmob://pair?"@;
    if p.is_prefix_of(written@) {
        assert(written@.take(p.len() as int) =~= p);
    }
    if written@.len() >= p.len() && written@.take(p.len() as int) == p {
        assert(p.is_prefix_of(written@));
    }
    match r {
        Err(PairingError::KeyLength) => {
            let k = choose|k: Seq<u8>| k.len() != 32 && #[trigger] uri::is_link_key(written@, k);
            assert(uri::link_value(written@, "pk"@) is Some);
        },
        Err(PairingError::NoHost) => {
            let k = choose|k: Seq<u8>| k.len() == 32 && #[trigger] uri::is_link_key(written@, k);
            assert(uri::link_value(written@, "pk"@) is Some);
        },
        _ => {},
    }
}

proof fn lemma_rest(written: Seq<char>, rest: Seq<char>)
    requires
        written == "syncmob://pair?"@ + rest,
    ensures
        uri::link_rest(written) == Some(rest),
{
    let p = "syncmob://pair?"@;
    assert(written.take(p.len() as int) =~= p);
    assert(written.skip(p.len() as int) =~= rest);
}

/// The port of a link is that of its last parameter of this name, if that is a
/// port other than zero.
pub proof fn law_last_port_counts(
    written: &str,
    rest: &str,
    v: Vec<(String, String)>,
    i: int,
    value: &str,
    port: Option<u16>,
    host: Option<IpAddr>,
    t: PairingTarget,
)
    requires
        written@ == "syncmob://pair?"@ + rest@,
        call_ensures(uri::split_params, (rest,), v),
        0 <= i < v@.len(),
        v@[i].0@ == "port"@,
        forall|j: int| i < j < v@.len() ==> (#[trigger] v@[j]).0@ != "port"@,
        value@ == v@[i].1@,
        call_ensures(uri::parse_port, (value,), port),
        call_ensures(uri::parse_pairing_uri, (written, host), Ok::<PairingTarget, PairingError>(t)),
    ensures
        port matches Some(p) ==> (p > 0 ==> t.port == p),
        port is None || port == Some(0u16) ==> t.port == 45821,
{
    lemma_rest(written@, rest@);
    let ps = uri::params(rest@);
    assert forall|j: int| i + 1 <= j < ps.len() implies (#[trigger] ps[j]).0 != "port"@ by {
        assert(v@[j].0@ == ps[j].0);
    }
    assert(v@[i].0@ == ps[i].0);
    uri::lemma_last_value(ps, "port"@, i + 1);
}

/// A link that names no port is for the usual one.
pub proof fn law_usual_port(
    written: &str,
    rest: &str,
    v: Vec<(String, String)>,
    host: Option<IpAddr>,
    t: PairingTarget,
)
    requires
        written@ == "syncmob://pair?"@ + rest@,
        call_ensures(uri::split_params, (rest,), v),
        forall|j: int| 0 <= j < v@.len() ==> (#[trigger] v@[j]).0@ != "port"@,
        call_ensures(uri::parse_pairing_uri, (written, host), Ok::<PairingTarget, PairingError>(t)),
    ensures
        t.port == 45821,
{
    lemma_rest(written@, rest@);
    let ps = uri::params(rest@);
    assert forall|j: int| 0 <= j < ps.len() implies (#[trigger] ps[j]).0 != "port"@ by {
        assert(v@[j].0@ == ps[j].0);
    }
    uri::lemma_last_value(ps, "port"@, 0);
}

/// The name of a link is its last parameter of this name, unescaped and in one
/// short line; there is none where the parameter is missing.
pub proof fn law_last_name_counts(
    written: &str,
    rest: &str,
    v: Vec<(String, String)>,
    k: int,
    value: &str,
    plain: String,
    host: Option<IpAddr>,
    t: PairingTarget,
)
    requires
        written@ == "syncmob://pair?"@ + rest@,
        call_ensures(uri::split_params, (rest,), v),
        0 <= k <= v@.len(),
        k > 0 ==> v@[k - 1].0@ == "name"@ && value@ == v@[k - 1].1@,
        forall|j: int| k <= j < v@.len() ==> (#[trigger] v@[j]).0@ != "name"@,
        call_ensures(uri::url_unescape, (value,), plain),
        call_ensures(uri::parse_pairing_uri, (written, host), Ok::<PairingTarget, PairingError>(t)),
    ensures
        k > 0 ==> talking::is_short_line_of(t.name@, plain@, 64),
        k == 0 ==> t.name@.len() == 0,
{
    lemma_rest(written@, rest@);
    let ps = uri::params(rest@);
    assert forall|j: int| k <= j < ps.len() implies (#[trigger] ps[j]).0 != "name"@ by {
        assert(v@[j].0@ == ps[j].0);
    }
    if k > 0 {
        assert(v@[k - 1].0@ == ps[k - 1].0);
    }
    uri::lemma_last_value(ps, "name"@, k);
    talking::lemma_clamped_is_line(plain@, 64);
}

/// Parameters are what stands between ampersands: those of two texts in a row
/// are those of the first one and behind them those of the second one.
pub proof fn law_parameters_of_two_texts(
    a: &str,
    b: &str,
    both: &str,
    va: Vec<(String, String)>,
    vb: Vec<(String, String)>,
    v: Vec<(String, String)>,
    i: int,
)
    requires
        both@ == a@.push('&') + b@,
        call_ensures(uri::split_params, (a,), va),
        call_ensures(uri::split_params, (b,), vb),
        call_ensures(uri::split_params, (both,), v),
        0 <= i < v@.len(),
    ensures
        v@.len() == va@.len() + vb@.len(),
        i < va@.len() ==> v@[i].0@ == va@[i].0@ && v@[i].1@ == va@[i].1@,
        i >= va@.len() ==> v@[i].0@ == vb@[i - va@.len()].0@ && v@[i].1@ == vb@[i
            - va@.len()].1@,
{
    uri::lemma_params_concat(a@, b@);
}

/// A parameter is split at its first equals sign.
pub proof fn law_parameter_is_name_and_value(
    s: &str,
    key: Seq<char>,
    value: Seq<char>,
    v: Vec<(String, String)>,
)
    requires
        call_ensures(uri::split_params, (s,), v),
        s@ == key.push('=') + value,
        forall|i: int| 0 <= i < key.len() ==> #[trigger] key[i] != '=' && key[i] != '&',
        forall|i: int| 0 <= i < value.len() ==> #[trigger] value[i] != '&',
    ensures
        v@.len() == 1,
        v@[0].0@ == key,
        v@[0].1@ == value,
{
    uri::lemma_one_param(key, value);
}

/// What was escaped is unescaped to what it was.
pub proof fn law_escapes_are_undone(s: &str, escaped: String, again: &str, r: String)
    requires
        call_ensures(uri::url_escape, (s,), escaped),
        again@ == escaped@,
        call_ensures(uri::url_unescape, (again,), r),
    ensures
        r@ == s@,
{
    uri::law_unescape_inverts_escape(s@);
}

/// An escaped text holds nothing that means something in a link.
pub proof fn law_escapes_are_plain(s: &str, r: String, i: int)
    requires
        call_ensures(uri::url_escape, (s,), r),
        0 <= i < r@.len(),
    ensures
        'a' <= r@[i] <= 'z' || 'A' <= r@[i] <= 'Z' || '0' <= r@[i] <= '9' || r@[i] == '-' || r@[i]
            == '_' || r@[i] == '.' || r@[i] == '~' || r@[i] == '%',
{
    uri::lemma_escaped_chars(encode_utf8(s@), i);
}

/// A text without a percent sign stands for itself.
pub proof fn law_unescaped_text_is_kept(s: &str, r: String)
    requires
        call_ensures(uri::url_unescape, (s,), r),
        forall|i: int| 0 <= i < encode_utf8(s@).len() ==> #[trigger] encode_utf8(s@)[i] != 37,
    ensures
        r@ == s@,
{
    uri::lemma_nothing_escaped(encode_utf8(s@));
    encode_utf8_valid_utf8(s@);
    encode_utf8_decode_utf8(s@);
}

/// A number is read digit by digit: one more digit makes ten times as much and
/// the digit of it. Nothing above the limit is read, nor anything else than
/// digits.
pub proof fn law_numbers_are_read_digit_by_digit(
    s: &str,
    t: &str,
    c: char,
    max: u64,
    n: u64,
    r: Option<u64>,
)
    requires
        t@ == s@.push(c),
        call_ensures(uri::parse_number, (s, max), Some(n)),
        call_ensures(uri::parse_number, (t, max), r),
    ensures
        '0' <= c <= '9' && n * 10 + (c as u32 - 48) <= max ==> r == Some(
            (n * 10 + (c as u32 - 48)) as u64,
        ),
        !('0' <= c <= '9' && n * 10 + (c as u32 - 48) <= max) ==> r is None,
{
    let d = if s@[0] == '+' {
        s@.skip(1)
    } else {
        s@
    };
    let e = if t@[0] == '+' {
        t@.skip(1)
    } else {
        t@
    };
    assert(s@.len() > 0);
    assert(e =~= d.push(c));
    assert(e.drop_last() =~= d);
    assert(e.last() == c);
    assert forall|i: int| 0 <= i < d.len() implies '0' <= #[trigger] e[i] <= '9' by {
        assert(e[i] == d[i]);
    }
}

/// One digit is its number, also behind a plus sign; nothing and a sign alone
/// are no number.
pub proof fn law_one_digit_is_its_number(s: &str, c: char, max: u64, r: Option<u64>)
    requires
        call_ensures(uri::parse_number, (s, max), r),
        max >= 9,
    ensures
        '0' <= c <= '9' && (s@ == seq![c] || s@ == seq!['+', c]) ==> r == Some(
            (c as u32 - 48) as u64,
        ),
        s@.len() == 0 || s@ == seq!['+'] ==> r is None,
        !('0' <= c <= '9') && s@ == seq![c] ==> r is None,
{
    if s@ == seq!['+', c] {
        assert(s@.skip(1) =~= seq![c]);
    }
    if s@ == seq!['+'] {
        assert(s@.skip(1) =~= Seq::<char>::empty());
    }
    reveal_with_fuel(uri::dec_value, 2);
    assert(seq![c].drop_last() =~= Seq::<char>::empty());
    assert(seq![c].last() == c);
    if s@ == seq![c] && !('0' <= c <= '9') {
        if c == '+' {
            assert(s@.skip(1) =~= Seq::<char>::empty());
        } else {
            assert(s@[0] == c);
        }
    }
}

/// A port is a number up to 65535.
pub proof fn law_ports_are_numbers(s: &str, n: Option<u64>, r: Option<u16>)
    requires
        call_ensures(uri::parse_number, (s, 65535), n),
        call_ensures(uri::parse_port, (s,), r),
    ensures
        r is Some <==> n is Some,
        r matches Some(p) ==> n == Some(p as u64),
{
}

/// Dialling a link dials what the link points at, and expects its key there.
pub proof fn law_dialling_a_link(
    e: &Engine,
    link: &str,
    host: Option<IpAddr>,
    t: Result<PairingTarget, PairingError>,
    r: Result<Action, PairingError>,
)
    requires
        call_ensures(uri::parse_pairing_uri, (link, host), t),
        call_ensures(Engine::dial_pairing_uri, (e, link, host), r),
    ensures
        t matches Ok(p) ==> (r matches Ok(Action::Dial { addr, expect_key: Some(key) }) && addr
            == (SocketAddr { ip: p.host, port: p.port }) && key@ == p.public_key@),
        t matches Err(why) ==> r == Err::<Action, PairingError>(why),
{
    assert forall|k: Seq<u8>, m: Seq<u8>|
        #[trigger] uri::is_link_key(link@, k) && #[trigger] uri::is_link_key(link@, m) implies k
        == m by {
        codec::lemma_b64_injective(true, k, m);
    }
    match t {
        Ok(p) => {
            assert(uri::is_link_key(link@, p.public_key@));
        },
        Err(_) => {},
    }
}

/// The own link is the one of the own key, port, address and name.
pub proof fn law_own_link(
    e: &Engine,
    ifaces: &[Interface],
    addr: Option<u32>,
    key: &[u8],
    name: &str,
    link: String,
    r: String,
)
    requires
        call_ensures(discovery::local_ipv4, (ifaces,), addr),
        key@ == e.identity.spec_public(),
        name@ == e.config.device_name@,
        call_ensures(uri::pairing_link, (key, e.bound_port, addr, name), link),
        call_ensures(Engine::pairing_uri, (e, ifaces), r),
    ensures
        r@ == link@,
{
    let own = choose|a: Option<u32>| #[trigger]
        crate::engine::queries::is_local_addr(ifaces@, a) && r@ == uri::link(
            e.identity.spec_public(),
            e.bound_port,
            uri::link_host(a),
            e.config.device_name@,
        );
    assert(own == addr) by {
        match (own, addr) {
            (Some(a), Some(b)) => {
                let i = choose|i: int|
                    0 <= i < ifaces@.len() && discovery::lan_ipv4(#[trigger] ifaces@[i]) == Some(a)
                        && forall|j: int|
                        0 <= j < i ==> discovery::lan_ipv4(#[trigger] ifaces@[j]) is None;
                let k = choose|k: int|
                    0 <= k < ifaces@.len() && discovery::lan_ipv4(#[trigger] ifaces@[k]) == Some(b)
                        && forall|j: int|
                        0 <= j < k ==> discovery::lan_ipv4(#[trigger] ifaces@[j]) is None;
                assert(i == k);
            },
            _ => {},
        }
    }
}

} // verus!
