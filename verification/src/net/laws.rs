//! What holds of the calls by which devices find each other and talk.
//!
//! Each law speaks of a call through what the call promises.

use vstd::prelude::*;
use vstd::utf8::*;
use crate::bytes;
use crate::codec;
use crate::engine::guard::ConnGuard;
use crate::engine::laws::talking;
use crate::net::discovery;
use crate::net::discovery::{BeaconInfo, DiscoveredPeer, Discovery, Interface, RateLimiter};
use crate::net::limit;
use crate::net::limit::Source;
use crate::net::session;
use crate::net::session::{
    Handshake, HandshakeStep, Handshaked, SecureChannel, SessionError,
};
use crate::noise;
use crate::proto::{Beacon, Message, ProtoError};
use crate::security::fingerprint;
use crate::security::fingerprint::DeviceId;
use crate::security::keystore;
use crate::security::keystore::Identity;
use crate::text;
use crate::util;
use crate::util::{IpAddr, SocketAddr};

verus! {

/// A beacon is taken if and only if it is short, comes from the local network,
/// can be read, is one of ours in the right version, and claims a port and a key
/// of 32 bytes that is not the own one. Then it is taken for the device that has
/// the key, at the address that it came from and the port that it names.
pub proof fn law_which_beacons_are_taken(
    raw: &[u8],
    b: Beacon,
    claimed: &str,
    src: SocketAddr,
    own_pk: &[u8],
    local: bool,
    key: Option<Vec<u8>>,
    key_bytes: &[u8],
    named: DeviceId,
    r: Option<DiscoveredPeer>,
)
    requires
        call_ensures(discovery::validate_beacon, (raw, Some(b), src, own_pk), r),
        call_ensures(util::is_lan_addr, (src.ip,), local),
        claimed@ == b.pk@,
        call_ensures(keystore::read_b64, (claimed,), key),
        key matches Some(k) ==> key_bytes@ == k@,
        call_ensures(fingerprint::device_id, (key_bytes,), named),
    ensures
        r is Some <==> raw@.len() <= 512 && local && b.m@ == "SYNCMOB"@ && b.v == 1 && b.port != 0
            && key is Some && key_bytes@.len() == 32 && key_bytes@ != own_pk@,
        r matches Some(p) ==> {
            &&& p.public_key@ == key_bytes@
            &&& p.device_id.0@ == named.0@
            &&& p.addr.ip == src.ip
            &&& p.addr.port == b.port
            &&& talking::is_short_line_of(p.name@, b.name@, 32)
            &&& talking::is_short_line_of(p.platform@, b.platform@, 16)
        },
{
    talking::lemma_clamped_is_line(b.name@, 32);
    talking::lemma_clamped_is_line(b.platform@, 16);
}

/// What cannot be read is no beacon.
pub proof fn law_unreadable_beacons_are_not_taken(
    raw: &[u8],
    src: SocketAddr,
    own_pk: &[u8],
    r: Option<DiscoveredPeer>,
)
    requires
        call_ensures(discovery::validate_beacon, (raw, None, src, own_pk), r),
    ensures
        r is None,
{
}

/// What is announced is the key, written so that it is read back, the name in at most 32 characters, the port and
/// the platform, as JSON with the marks by which others know it.
pub proof fn law_announcement_tells_what_it_should(
    info: &BeaconInfo,
    written: &str,
    key: Vec<u8>,
    name: &str,
    clamped: String,
    r: Option<Vec<u8>>,
)
    requires
        call_ensures(discovery::encode_beacon, (info,), r),
        call_ensures(keystore::read_b64, (written,), Some(key)),
        key@ == info.public_key@,
        name@ == info.name@,
        call_ensures(util::clamp_str, (name, 32), clamped),
    ensures
        ({
            let json = "{\"m\":"@ + codec::json_string("SYNCMOB"@) + ",\"v\":"@ + text::decimal(1)
                + ",\"pk\":"@ + codec::json_string(written@) + ",\"name\":"@ + codec::json_string(
                clamped@,
            ) + ",\"port\":"@ + text::decimal(info.port as nat) + ",\"platform\":"@
                + codec::json_string(info.platform@) + "}"@;
            &&& r is Some <==> encode_utf8(json).len() <= 512
            &&& r matches Some(v) ==> v@ == encode_utf8(json)
        }),
{
}

/// What is announced follows the last change, and nothing is announced while
/// that is switched off.
pub proof fn law_announcing_follows_the_settings(
    d: &Discovery,
    info: &BeaconInfo,
    beacon: Option<Vec<u8>>,
    r: Option<Vec<u8>>,
)
    requires
        call_ensures(Discovery::payload, (d,), r),
        d.spec_info() == *info,
        call_ensures(discovery::encode_beacon, (info,), beacon),
    ensures
        !info.announce ==> r is None,
        info.announce ==> r is Some == beacon is Some,
        info.announce ==> (r matches Some(v) ==> v@ == beacon->0@),
{
}

/// Discovery runs with what it was given until it is stopped, and is stopped
/// from then on.
pub proof fn law_discovery_runs_until_it_is_stopped(
    info: BeaconInfo,
    started: &Discovery,
    d: &mut Discovery,
    stopped: &Discovery,
    first: bool,
    later: bool,
)
    requires
        call_ensures(Discovery::start, (info,), *started),
        call_ensures(Discovery::is_running, (started,), first),
        *old(d) == *started,
        call_ensures(Discovery::stop, (d,), ()),
        *stopped == *final(d),
        call_ensures(Discovery::is_running, (stopped,), later),
    ensures
        first,
        !later,
        started.spec_info() == info,
        stopped.spec_info() == info,
{
}

/// Announcements go to everybody, to the group, and to the broadcast address of
/// each interface, always at the port of discovery.
pub proof fn law_where_announcements_go(broadcasts: &[u32], r: Vec<SocketAddr>, i: int)
    requires
        call_ensures(discovery::announce_targets, (broadcasts,), r),
        0 <= i < broadcasts@.len(),
    ensures
        r@.len() == broadcasts@.len() + 2,
        r@[0] == (SocketAddr { ip: IpAddr::V4(0xffff_ffff), port: 45820 }),
        r@[1] == (SocketAddr { ip: IpAddr::V4(0xefff_4f14), port: 45820 }),
        r@[i + 2] == (SocketAddr { ip: IpAddr::V4(broadcasts@[i]), port: 45820 }),
{
}

/// A nap is never longer than a fifth of a second nor than what is left, and it
/// always brings the end nearer.
pub proof fn law_naps_are_short(left: u64, r: u64)
    requires
        call_ensures(discovery::sleep_step, (left,), r),
    ensures
        r <= 200_000_000,
        r <= left,
        left > 0 ==> r > 0,
        left >= 200_000_000 ==> r == 200_000_000,
        left < 200_000_000 ==> r == left,
{
}

/// The group is joined on the IPv4 address of every interface but the loopback,
/// and on nothing else.
pub proof fn law_where_the_group_is_joined(ifaces: &[Interface], r: Vec<u32>, a: u32)
    requires
        call_ensures(discovery::join_multicast, (ifaces,), r),
    ensures
        r@.contains(a) <==> exists|i: int|
            0 <= i < ifaces@.len() && !(#[trigger] ifaces@[i]).loopback && ifaces@[i].ip
                == IpAddr::V4(a),
{
    lemma_joined(ifaces@, a);
}

proof fn lemma_joined(ifaces: Seq<Interface>, a: u32)
    ensures
        discovery::multicast_addrs(ifaces).contains(a) <==> exists|i: int|
            0 <= i < ifaces.len() && !(#[trigger] ifaces[i]).loopback && ifaces[i].ip
                == IpAddr::V4(a),
    decreases ifaces.len(),
{
    if ifaces.len() > 0 {
        let t = ifaces.drop_last();
        let before = discovery::multicast_addrs(t);
        let all = discovery::multicast_addrs(ifaces);
        lemma_joined(t, a);
        if all.contains(a) {
            let k = choose|k: int| 0 <= k < all.len() && all[k] == a;
            if k < before.len() {
                assert(before[k] == a);
                let i = choose|i: int|
                    0 <= i < t.len() && !(#[trigger] t[i]).loopback && t[i].ip == IpAddr::V4(a);
                assert(ifaces[i] == t[i]);
            } else {
                let n = ifaces.len() - 1;
                assert(!ifaces[n].loopback && ifaces[n].ip == IpAddr::V4(a));
            }
        }
        if exists|i: int|
            0 <= i < ifaces.len() && !(#[trigger] ifaces[i]).loopback && ifaces[i].ip
                == IpAddr::V4(a) {
            let i = choose|i: int|
                0 <= i < ifaces.len() && !(#[trigger] ifaces[i]).loopback && ifaces[i].ip
                    == IpAddr::V4(a);
            if i < t.len() {
                assert(t[i] == ifaces[i]);
                let k = choose|k: int| 0 <= k < before.len() && before[k] == a;
                assert(all[k] == a);
            } else {
                assert(all[before.len() as int] == a);
            }
        }
    }
}

/// Every interface but the loopback contributes its broadcast address, each of
/// which is listed once, and there are no others.
pub proof fn law_which_broadcast_addresses_are_used(
    ifaces: &[Interface],
    r: Vec<u32>,
    b: u32,
    i: int,
    j: int,
)
    requires
        call_ensures(discovery::interface_broadcasts, (ifaces,), r),
        0 <= i < j < r@.len(),
    ensures
        r@.contains(b) <==> exists|n: int|
            0 <= n < ifaces@.len() && !(#[trigger] ifaces@[n]).loopback && ifaces@[n].broadcast
                == Some(b),
        r@[i] < r@[j],
{
    if r@.contains(b) {
        let n = choose|n: int|
            0 <= n < ifaces@.len() && discovery::usable_broadcast(#[trigger] ifaces@[n]) == Some(b);
        assert(!ifaces@[n].loopback && ifaces@[n].broadcast == Some(b));
    }
    if exists|n: int|
        0 <= n < ifaces@.len() && !(#[trigger] ifaces@[n]).loopback && ifaces@[n].broadcast == Some(
            b,
        ) {
        let n = choose|n: int|
            0 <= n < ifaces@.len() && !(#[trigger] ifaces@[n]).loopback && ifaces@[n].broadcast
                == Some(b);
        assert(discovery::usable_broadcast(ifaces@[n]) == Some(b));
    }
}

/// The own address is that of the first interface, the loopback apart, whose
/// IPv4 address belongs to a local network.
pub proof fn law_which_address_is_the_own(
    ifaces: &[Interface],
    r: Option<u32>,
    a: u32,
    local: bool,
    i: int,
)
    requires
        call_ensures(discovery::local_ipv4, (ifaces,), r),
        0 <= i < ifaces@.len(),
        ifaces@[i].ip == IpAddr::V4(a),
        call_ensures(util::is_lan_addr, (ifaces@[i].ip,), local),
        forall|j: int|
            0 <= j < i ==> (#[trigger] ifaces@[j]).loopback || ifaces@[j].ip is V6,
    ensures
        !ifaces@[i].loopback && local ==> r == Some(a),
        r matches Some(x) ==> exists|n: int|
            0 <= n < ifaces@.len() && !(#[trigger] ifaces@[n]).loopback && ifaces@[n].ip
                == IpAddr::V4(x),
{
    if !ifaces@[i].loopback && local {
        assert(discovery::lan_ipv4(ifaces@[i]) == Some(a));
        assert forall|j: int| 0 <= j < i implies discovery::lan_ipv4(
            #[trigger] ifaces@[j],
        ) is None by {}
    }
    if r is Some {
        let n = choose|n: int|
            0 <= n < ifaces@.len() && discovery::lan_ipv4(#[trigger] ifaces@[n]) == r;
        assert(!ifaces@[n].loopback && ifaces@[n].ip == IpAddr::V4(r->0));
    }
}

/// A source may send four datagrams in a second from its first one; the count
/// starts again with the next second. The others are not concerned.
pub proof fn law_datagrams_are_rationed(
    l: &mut RateLimiter,
    ip: IpAddr,
    now: u64,
    r: bool,
    i: int,
    j: int,
)
    requires
        call_ensures(RateLimiter::allow, (l, ip, now), r),
        old(l).wf(),
        old(l).seen.entries@.len() <= 1024,
        0 <= i < old(l).seen.entries@.len(),
        old(l).seen.entries@[i].ip == ip,
        old(l).seen.entries@[i].count < u32::MAX,
        0 <= j < old(l).seen.entries@.len(),
        j != i,
    ensures
        final(l).seen.entries@.len() == old(l).seen.entries@.len(),
        final(l).seen.entries@[j] == old(l).seen.entries@[j],
        final(l).seen.entries@[i].ip == ip,
        ({
            let e = old(l).seen.entries@[i];
            let f = final(l).seen.entries@[i];
            if now - e.since < 1_000_000_000 {
                r == (e.count < 4) && f.since == e.since && f.count == e.count + 1
            } else {
                r && f.since == now && f.count == 1
            }
        }),
{
    limit::lemma_index_unique(old(l).seen.entries@, i);
}

/// The first datagram of a source is taken while there is room, and counted.
pub proof fn law_first_datagram_is_taken(l: &mut RateLimiter, ip: IpAddr, now: u64, r: bool)
    requires
        call_ensures(RateLimiter::allow, (l, ip, now), r),
        old(l).wf(),
        old(l).seen.entries@.len() <= 1024,
        forall|i: int|
            0 <= i < old(l).seen.entries@.len() ==> (#[trigger] old(l).seen.entries@[i]).ip != ip,
    ensures
        r,
        final(l).seen.entries@ == old(l).seen.entries@.push(Source { ip, since: now, count: 1 }),
{
    limit::lemma_index_of(old(l).seen.entries@, ip);
}

/// Once the table of sources overflows with sources of the last five seconds,
/// nothing is taken and nothing is added.
pub proof fn law_overflow_is_refused(l: &mut RateLimiter, ip: IpAddr, now: u64, r: bool)
    requires
        call_ensures(RateLimiter::allow, (l, ip, now), r),
        old(l).seen.entries@.len() > 1024,
        forall|i: int|
            0 <= i < old(l).seen.entries@.len() ==> now - (#[trigger] old(l).seen.entries@[i]).since < 5_000_000_000,
    ensures
        !r,
        final(l).seen.entries@ == old(l).seen.entries@,
{
    lemma_all_fresh(old(l).seen.entries@, now, 5_000_000_000);
}

proof fn lemma_all_fresh(es: Seq<Source>, now: u64, window: u64)
    requires
        window > 0,
        forall|i: int| 0 <= i < es.len() ==> now - (#[trigger] es[i]).since < window,
    ensures
        limit::fresh(es, now, window) == es,
    decreases es.len(),
{
    reveal(Seq::filter);
    if es.len() > 0 {
        let t = es.drop_last();
        assert forall|i: int| 0 <= i < t.len() implies now - (#[trigger] t[i]).since < window by {
            assert(t[i] == es[i]);
        }
        lemma_all_fresh(t, now, window);
        assert(now - es[es.len() - 1].since < window);
        assert(t.push(es.last()) =~= es);
    }
}

/// A datagram that is too long is not taken and does not count; any other one
/// is taken exactly if its source may send it.
pub proof fn law_long_datagrams_do_not_count(
    l: &mut RateLimiter,
    m: &mut RateLimiter,
    len: usize,
    ip: IpAddr,
    now: u64,
    r: bool,
    allowed: bool,
)
    requires
        call_ensures(RateLimiter::admits, (l, len, ip, now), r),
        call_ensures(RateLimiter::allow, (m, ip, now), allowed),
        *old(l) == *old(m),
    ensures
        len > 512 ==> !r && final(l).seen.entries@ == old(l).seen.entries@,
        len <= 512 ==> r == allowed && final(l).seen.entries@ == final(m).seen.entries@,
{
}

/// An address may start ten handshakes in a minute from its first one. What it
/// does is not counted against others.
pub proof fn law_handshakes_are_rationed(
    g: &mut ConnGuard,
    ip: IpAddr,
    now: u64,
    r: bool,
    i: int,
    j: int,
)
    requires
        call_ensures(ConnGuard::allow, (g, ip, now), r),
        old(g).wf(),
        old(g).seen.entries@.len() <= 512,
        0 <= i < old(g).seen.entries@.len(),
        old(g).seen.entries@[i].ip == ip,
        old(g).seen.entries@[i].count < u32::MAX,
        0 <= j < old(g).seen.entries@.len(),
        j != i,
    ensures
        ({
            let e = old(g).seen.entries@[i];
            if now - e.since < 60_000_000_000 {
                &&& r == (e.count < 10)
                &&& final(g).seen.entries@.contains(
                    Source { ip, since: e.since, count: (e.count + 1) as u32 },
                )
            } else {
                r && final(g).seen.entries@.contains(Source { ip, since: now, count: 1 })
            }
        }),
        now - old(g).seen.entries@[j].since < 60_000_000_000 ==> final(g).seen.entries@.contains(
            old(g).seen.entries@[j],
        ),
        now - old(g).seen.entries@[j].since >= 60_000_000_000 ==> !final(g).seen.entries@.contains(
            old(g).seen.entries@[j],
        ),
{
    let es = old(g).seen.entries@;
    let e = es[i];
    let kept = limit::fresh(es, now, 60_000_000_000);
    let keep = |x: Source| limit::spec_elapsed(now, x.since) < 60_000_000_000u64;
    limit::lemma_index_unique(es, i);
    limit::lemma_fresh_distinct(es, now, 60_000_000_000);
    limit::lemma_current_of_fresh(es, ip, now, 60_000_000_000, 60_000_000_000);
    limit::lemma_bumped_self(kept, ip, now, 60_000_000_000);
    let b = limit::bumped(kept, ip, now, 60_000_000_000);
    let k = limit::index_of(b, ip);
    assert(b.contains(b[k]));
    limit::lemma_index_of(kept, ip);
    let o = es[j];
    if keep(o) {
        es.lemma_filter_contains(keep, j);
        let n = choose|n: int| 0 <= n < kept.len() && kept[n] == o;
        limit::lemma_index_unique(kept, n);
        assert(o.ip != ip);
        assert(b[n] == o);
    } else if b.contains(o) {
        let n = choose|n: int| 0 <= n < b.len() && b[n] == o;
        assert(o.ip != ip);
        if n < kept.len() {
            assert(kept[n] == o);
            assert(kept.contains(o));
        }
    }
}

/// The first handshake of an address is let in while there is room, and counted.
pub proof fn law_first_handshake_is_let_in(g: &mut ConnGuard, ip: IpAddr, now: u64, r: bool)
    requires
        call_ensures(ConnGuard::allow, (g, ip, now), r),
        old(g).wf(),
        old(g).seen.entries@.len() <= 512,
        forall|i: int|
            0 <= i < old(g).seen.entries@.len() ==> (#[trigger] old(g).seen.entries@[i]).ip != ip,
    ensures
        r,
        final(g).seen.entries@.contains(Source { ip, since: now, count: 1 }),
{
    let es = old(g).seen.entries@;
    let kept = limit::fresh(es, now, 60_000_000_000);
    limit::lemma_index_of(es, ip);
    limit::lemma_fresh_distinct(es, now, 60_000_000_000);
    limit::lemma_current_of_fresh(es, ip, now, 60_000_000_000, 60_000_000_000);
    limit::lemma_bumped_self(kept, ip, now, 60_000_000_000);
    let b = limit::bumped(kept, ip, now, 60_000_000_000);
    assert(b.contains(b[limit::index_of(b, ip)]));
}

/// While more than 512 addresses attempted a handshake within the last minute,
/// nobody is let in.
pub proof fn law_crowd_is_turned_away(g: &mut ConnGuard, ip: IpAddr, now: u64, r: bool)
    requires
        call_ensures(ConnGuard::allow, (g, ip, now), r),
        old(g).seen.entries@.len() > 512,
        forall|i: int|
            0 <= i < old(g).seen.entries@.len() ==> now - (#[trigger] old(g).seen.entries@[i]).since < 60_000_000_000,
    ensures
        !r,
        final(g).seen.entries@ == old(g).seen.entries@,
{
    lemma_all_fresh(old(g).seen.entries@, now, 60_000_000_000);
}

/// A frame is the message behind its length in four bytes, most significant
/// first.
pub proof fn law_frame_is_length_and_message(message: &[u8], r: Vec<u8>)
    requires
        call_ensures(session::frame, (message,), r),
        message@.len() < 0x1_0000_0000,
    ensures
        r@.len() == message@.len() + 4,
        r@.skip(4) == message@,
        r@[0] * 0x100_0000 + r@[1] * 0x1_0000 + r@[2] * 0x100 + r@[3] == message@.len(),
{
    session::law_frame_round_trip(message@);
    lemma_four(r@.take(4));
}

proof fn lemma_four(s: Seq<u8>)
    requires
        s.len() == 4,
    ensures
        bytes::be_value(s) == s[0] * 0x100_0000 + s[1] * 0x1_0000 + s[2] * 0x100 + s[3],
{
    reveal_with_fuel(bytes::be_value, 5);
    let t = s.drop_last();
    let u = t.drop_last();
    let v = u.drop_last();
    assert(v.drop_last().len() == 0);
}

/// A length prefix is read as what it says. Ciphertexts of 16 to 65535 bytes and
/// handshake messages of 1 to 1024 bytes are accepted, and no others.
pub proof fn law_which_lengths_are_accepted(
    prefix: &[u8],
    r: Result<usize, SessionError>,
    h: Result<usize, SessionError>,
)
    requires
        prefix@.len() == 4,
        call_ensures(session::frame_len, (prefix,), r),
        call_ensures(session::handshake_len, (prefix,), h),
    ensures
        ({
            let n = prefix@[0] * 0x100_0000 + prefix@[1] * 0x1_0000 + prefix@[2] * 0x100
                + prefix@[3];
            &&& r is Ok <==> 16 <= n <= 65535
            &&& r matches Ok(x) ==> x == n
            &&& r matches Err(e) ==> e == SessionError::FrameTooLarge(n as usize)
            &&& h is Ok <==> 1 <= n <= 1024
            &&& h matches Ok(x) ==> x == n
            &&& h matches Err(e) ==> e == SessionError::FrameTooLarge(n as usize)
        }),
{
    lemma_four(prefix@);
}

/// The two ends of a connection start as the two ends of one handshake, in which
/// the connecting one speaks first.
pub proof fn law_ends_of_a_connection(
    a: &Identity,
    b: &Identity,
    x: Result<Handshake, SessionError>,
    y: Result<Handshake, SessionError>,
    h: &Handshake,
    first: HandshakeStep,
)
    requires
        call_ensures(session::handshake_initiator, (a,), x),
        call_ensures(session::handshake_responder, (b,), y),
        x == Ok::<Handshake, SessionError>(*h),
        call_ensures(Handshake::step, (h,), first),
    ensures
        x matches Ok(i) && (y matches Ok(p) && {
            &&& i.is_aligned(&p)
            &&& i.spec_private() == a.spec_private()
            &&& p.spec_private() == b.spec_private()
            &&& i.spec_is_initiator()
            &&& !p.spec_is_initiator()
            &&& i.spec_messages().len() == 0
        }),
        first == HandshakeStep::Write,
{
    if x is Ok && y is Ok {
        assert(x->Ok_0.spec_messages() =~= y->Ok_0.spec_messages());
    }
}

/// The sides take turns, and are done after three messages.
pub proof fn law_sides_take_turns(h: &Handshake, r: HandshakeStep)
    requires
        call_ensures(Handshake::step, (h,), r),
        h.wf(),
        h.spec_messages().len() <= 3,
    ensures
        r is Done <==> h.spec_messages().len() == 3,
        r is Write <==> if h.spec_is_initiator() {
            h.spec_messages().len() == 0 || h.spec_messages().len() == 2
        } else {
            h.spec_messages().len() == 1
        },
{
}

/// What one end writes, the other end takes, and both are still the two ends of
/// one handshake, one message further.
pub proof fn law_handshake_messages_arrive(
    a: &mut Handshake,
    b: &mut Handshake,
    out: Vec<u8>,
    message: &[u8],
    r: Result<(), SessionError>,
)
    requires
        old(a).is_aligned(old(b)),
        call_ensures(Handshake::write_hs, (a,), Ok::<Vec<u8>, SessionError>(out)),
        message@ == out@.skip(4),
        call_ensures(Handshake::read_hs, (b, message), r),
    ensures
        r is Ok,
        final(a).is_aligned(final(b)),
        final(a).spec_messages() == old(a).spec_messages().push(message@),
        final(a).spec_private() == old(a).spec_private(),
        final(b).spec_private() == old(b).spec_private(),
        final(a).spec_is_initiator() == old(a).spec_is_initiator(),
        out@[0] * 0x100_0000 + out@[1] * 0x1_0000 + out@[2] * 0x100 + out@[3] == message@.len(),
{
    let m = choose|m: Seq<u8>|
        {
            &&& out@ == #[trigger] session::framed(m)
            &&& m.len() == noise::overhead(old(a).spec_done())
            &&& old(a).goes_on(final(a), old(a).spec_messages().push(m))
            &&& old(a).spec_unbroken() ==> final(a).spec_unbroken()
            &&& forall|other: Handshake| old(a).is_aligned(&other) ==> #[trigger] other.reads(m)
        };
    session::law_frame_round_trip(m);
    assert(message@ == m);
    assert(old(b).reads(m));
    lemma_four(out@.take(4));
}

/// At the end each side knows the key of the other one, both have the same hash
/// and so the same code to show, and what one encrypts with the other decrypts
/// with.
pub proof fn law_handshake_ends_in_one_session(
    a: Handshake,
    b: Handshake,
    at: SocketAddr,
    from: SocketAddr,
    x: Result<Handshaked, SessionError>,
    y: Result<Handshaked, SessionError>,
)
    requires
        a.is_peer(&b),
        call_ensures(Handshake::finish, (a, at), x),
        call_ensures(Handshake::finish, (b, from), y),
    ensures
        x matches Ok(p) && (y matches Ok(q) && {
            &&& p.remote_static@ == noise::x25519_public(b.spec_private())
            &&& q.remote_static@ == noise::x25519_public(a.spec_private())
            &&& p.handshake_hash@ == q.handshake_hash@
            &&& p.is_initiator == a.spec_is_initiator()
            &&& p.is_initiator != q.is_initiator
            &&& p.peer_addr == at
            &&& q.peer_addr == from
            &&& in_step(p.channel, q.channel)
            &&& in_step(q.channel, p.channel)
            &&& !p.channel.spec_closed() && p.channel.spec_sent() == 0 && p.channel.spec_recvd() == 0
            &&& !q.channel.spec_closed() && q.channel.spec_sent() == 0 && q.channel.spec_recvd() == 0
            &&& p.remote_static@.len() == 32
            &&& a.spec_proved() == Some(p.remote_static@)
        }),
{
    assert(b.is_peer(&a));
}

/// What one side encrypts next is what the other one decrypts next.
pub open spec fn in_step(a: SecureChannel, b: SecureChannel) -> bool {
    &&& a.wf()
    &&& b.wf()
    &&& a.spec_keys().0 == b.spec_keys().1
    &&& a.spec_counts().0 == b.spec_counts().1
}

/// What one side sends, the other side reads, whole and unchanged; and so with
/// the next message.
pub proof fn law_messages_arrive(
    a: &mut SecureChannel,
    b: &mut SecureChannel,
    msg: &Message,
    wire: Result<Vec<u8>, ProtoError>,
    out: Vec<u8>,
    ct: &[u8],
    r: Result<Vec<u8>, SessionError>,
)
    requires
        in_step(*old(a), *old(b)),
        old(b).spec_recvd() <= 0x1_0000_0000_0000,
        call_ensures(Message::encode, (msg,), wire),
        call_ensures(SecureChannel::send, (a, msg), Ok::<Vec<u8>, SessionError>(out)),
        ct@ == out@.skip(4),
        call_ensures(SecureChannel::recv, (b, ct), r),
    ensures
        wire matches Ok(w) && (r matches Ok(pt) && pt@ == w@),
        in_step(*final(a), *final(b)),
        out@[0] * 0x100_0000 + out@[1] * 0x1_0000 + out@[2] * 0x100 + out@[3] == ct@.len(),
{
    session::law_messages_survive_the_wire(*old(a), *final(a), *old(b), *msg, out);
    lemma_four(out@.take(4));
}

/// A message is sent unless the channel is closed, it is too long, or the
/// session is used up; then the user learns which of these it is.
pub proof fn law_when_messages_are_sent(
    a: &mut SecureChannel,
    msg: &Message,
    wire: Result<Vec<u8>, ProtoError>,
    r: Result<Vec<u8>, SessionError>,
)
    requires
        call_ensures(Message::encode, (msg,), wire),
        call_ensures(SecureChannel::send, (a, msg), r),
        old(a).wf(),
        old(a).spec_counts().0 < u64::MAX,
    ensures
        r is Ok <==> !old(a).spec_closed() && wire is Ok && old(a).spec_sent()
            <= 0x1_0000_0000_0000,
        old(a).spec_closed() ==> (r matches Err(e) && e is Closed) && *final(a) == *old(a),
        !old(a).spec_closed() && wire is Err ==> (r matches Err(e) && e is Proto) && *final(a)
            == *old(a),
        !old(a).spec_closed() && wire is Ok && old(a).spec_sent() > 0x1_0000_0000_0000 ==> (r
            matches Err(e) && e is Exhausted),
        r is Ok ==> final(a).spec_sent() == old(a).spec_sent() + 1,
        final(a).spec_closed() == old(a).spec_closed(),
        final(a).spec_keys() == old(a).spec_keys(),
        final(a).spec_recvd() == old(a).spec_recvd(),
{
}

/// A closed channel stays closed and sends nothing.
pub proof fn law_closed_channels_are_silent(
    a: &mut SecureChannel,
    b: &mut SecureChannel,
    closed: &SecureChannel,
    told: bool,
    msg: &Message,
    r: Result<Vec<u8>, SessionError>,
)
    requires
        call_ensures(SecureChannel::close, (a,), ()),
        *closed == *final(a),
        call_ensures(SecureChannel::is_closed, (closed,), told),
        *old(b) == *final(a),
        call_ensures(SecureChannel::send, (b, msg), r),
    ensures
        told,
        r matches Err(e) && e is Closed,
        *final(b) == *old(b),
{
}

/// What is not authentic is refused, and does not count as a message that was
/// read; after too many messages nothing is read any more.
pub proof fn law_what_is_read(b: &mut SecureChannel, ct: &[u8], r: Result<Vec<u8>, SessionError>)
    requires
        call_ensures(SecureChannel::recv, (b, ct), r),
    ensures
        r is Ok ==> old(b).spec_recvd() <= 0x1_0000_0000_0000 && final(b).spec_counts().1 == (old(b).spec_counts().1 + 1) as u64,
        r is Err ==> final(b).spec_counts() == old(b).spec_counts(),
        old(b).spec_recvd() > 0x1_0000_0000_0000 ==> (r matches Err(e) && e is Exhausted),
        final(b).spec_keys() == old(b).spec_keys(),
        r matches Ok(pt) ==> noise::noise_open(
            "Noise_XX_25519_ChaChaPoly_BLAKE2s"@,
            old(b).spec_keys().1,
            old(b).spec_counts().1,
            ct@,
        ) == Some(pt@),
{
}

} // verus!
