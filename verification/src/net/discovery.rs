//! LAN presence: UDP broadcast + multicast beacons.
//!
//! Beacons are **unauthenticated by design**. They carry only public
//! information (a public key, a display name, a port) and are treated purely as
//! a hint about where a device might be reachable. Anyone can forge one, so a
//! beacon never grants trust: it only populates the "nearby devices" list, and
//! every entry still has to survive the Noise handshake and the trust store.

use vstd::prelude::*;
use vstd::string::*;
use vstd::utf8::*;
use crate::bytes;
use crate::codec;
use crate::net::limit;
use crate::net::limit::{Source, Sources, SECOND};
use crate::proto::{Beacon, BEACON_MAGIC, DISCOVERY_PORT, MAX_BEACON_BYTES, MULTICAST_GROUP};
use crate::security::fingerprint;
use crate::security::fingerprint::DeviceId;
use crate::security::keystore;
use crate::text;
use crate::util;
use crate::util::{IpAddr, SocketAddr};

verus! {

/// How often we announce ourselves, in nanoseconds.
pub const ANNOUNCE_INTERVAL: u64 = 3_000_000_000;

/// A peer disappears from the list after this long without a beacon, in
/// nanoseconds.
pub const PEER_TTL: u64 = 15_000_000_000;

/// Longest sleep between two looks at the stop flag, in nanoseconds.
pub const SLEEP_STEP: u64 = 200_000_000;

/// Upper bound on the peer table, so a flood of forged beacons cannot exhaust
/// memory or make the UI unusable.
pub const MAX_PEERS: usize = 128;

/// Beacons accepted per source address per second.
pub const RATE_PER_SOURCE: u32 = 4;

/// Sources remembered before old ones are forgotten.
pub const MAX_SOURCES: usize = 1024;

/// How long a source is remembered once there are too many, in nanoseconds.
pub const SOURCE_MEMORY: u64 = 5_000_000_000;

/// 255.255.255.255
pub const BROADCAST: u32 = 0xffff_ffff;

#[derive(Debug, Clone)]
pub struct DiscoveredPeer {
    pub device_id: DeviceId,
    /// Claimed X25519 static public key. Verified only by the handshake.
    pub public_key: Vec<u8>,
    /// Claimed display name. Untrusted; already clamped.
    pub name: String,
    pub platform: String,
    pub addr: SocketAddr,
}

/// What we announce.
#[derive(Debug, Clone)]
pub struct BeaconInfo {
    pub public_key: Vec<u8>,
    pub name: String,
    pub port: u16,
    pub platform: String,
    pub announce: bool,
}

/// A network interface of this machine.
#[derive(Clone, Copy, PartialEq, Eq, Debug, Structural)]
pub struct Interface {
    pub loopback: bool,
    pub ip: IpAddr,
    pub broadcast: Option<u32>,
}

/// What the announce and listen loops share: whether they go on, and what is
/// announced.
pub struct Discovery {
    running: bool,
    info: BeaconInfo,
}

/// The beacon that announces a device.
pub open spec fn announces(b: Beacon, info: BeaconInfo) -> bool {
    &&& b.m@ == BEACON_MAGIC@
    &&& b.v == 1
    &&& b.pk@ == codec::b64(false, info.public_key@)
    &&& b.name@ == util::clamped(info.name@, 32)
    &&& b.port == info.port
    &&& b.platform == info.platform
}

/// The text of the beacon that announces a device.
pub open spec fn announcement(info: BeaconInfo) -> Seq<char> {
    "{\"m\":"@ + codec::json_string(BEACON_MAGIC@) + ",\"v\":"@ + text::decimal(1) + ",\"pk\":"@
        + codec::json_string(codec::b64(false, info.public_key@)) + ",\"name\":"@
        + codec::json_string(util::clamped(info.name@, 32)) + ",\"port\":"@ + text::decimal(
        info.port as nat,
    ) + ",\"platform\":"@ + codec::json_string(info.platform@) + "}"@
}

/// The bytes that announce a device, unless they are too many.
pub fn encode_beacon(info: &BeaconInfo) -> (r: Option<Vec<u8>>)
    requires
        info.public_key@.len() <= usize::MAX / 4,
    ensures
        match r {
            Some(v) => v@ == encode_utf8(announcement(*info)) && v@.len() <= MAX_BEACON_BYTES,
            None => encode_utf8(announcement(*info)).len() > MAX_BEACON_BYTES,
        },
{
    let mut json = "{\"m\":".to_string();
    json.append(codec::json_quote(BEACON_MAGIC).as_str());
    json.append(",\"v\":");
    json.append(text::decimal_text(1).as_str());
    json.append(",\"pk\":");
    json.append(
        codec::json_quote(codec::b64_encode(info.public_key.as_slice()).as_str()).as_str(),
    );
    json.append(",\"name\":");
    json.append(codec::json_quote(util::clamp_str(info.name.as_str(), 32).as_str()).as_str());
    json.append(",\"port\":");
    json.append(text::decimal_text(info.port as u64).as_str());
    json.append(",\"platform\":");
    json.append(codec::json_quote(info.platform.as_str()).as_str());
    json.append("}");
    let raw = json.as_str().as_bytes();
    if raw.len() > MAX_BEACON_BYTES {
        return None;
    }
    proof {
        assert(raw@.subrange(0, raw@.len() as int) =~= raw@);
    }
    Some(bytes::slice_to_vec(raw, 0, raw.len()))
}

/// The key that a beacon claims, if the beacon is acceptable: it comes from the
/// local network, has the right size, magic, version, port and key length, and
/// is not our own.
pub open spec fn claimed_key(
    raw: Seq<u8>,
    parsed: Option<Beacon>,
    src: SocketAddr,
    own_pk: Seq<u8>,
) -> Option<Seq<u8>> {
    if raw.len() > MAX_BEACON_BYTES || !util::lan_addr(src.ip) {
        None
    } else {
        match parsed {
            Some(b) => if b.m@ != BEACON_MAGIC@ || b.v != 1 || b.port == 0 {
                None
            } else {
                match keystore::b64_read(b.pk@) {
                    Some(pk) => if pk.len() != 32 || pk == own_pk {
                        None
                    } else {
                        Some(pk)
                    },
                    None => None,
                }
            },
            None => None,
        }
    }
}

/// What is made of a beacon: a peer with the key that it claims, at the address
/// that it came from, or nothing.
pub open spec fn validated(
    raw: Seq<u8>,
    parsed: Option<Beacon>,
    src: SocketAddr,
    own_pk: Seq<u8>,
    r: Option<DiscoveredPeer>,
) -> bool {
    match claimed_key(raw, parsed, src, own_pk) {
        Some(pk) => r matches Some(p) && parsed matches Some(b) && {
            &&& p.public_key@ == pk
            &&& p.device_id.0@ == fingerprint::device_bytes(pk)
            &&& p.name@ == util::clamped(b.name@, 32)
            &&& p.platform@ == util::clamped(b.platform@, 16)
            &&& p.addr == (SocketAddr { ip: src.ip, port: b.port })
        },
        None => r is None,
    }
}

/// Sanity-check a beacon; `parsed` is what its JSON was read as, if it could be
/// read. The address always comes from the UDP source, never from the payload.
pub fn validate_beacon(
    raw: &[u8],
    parsed: Option<Beacon>,
    src: SocketAddr,
    own_pk: &[u8],
) -> (r: Option<DiscoveredPeer>)
    ensures
        validated(raw@, parsed, src, own_pk@, r),
{
    if raw.len() > MAX_BEACON_BYTES {
        return None;
    }
    // Only ever talk to the local network.
    if !util::is_lan_addr(src.ip) {
        return None;
    }
    let b = match parsed {
        Some(b) => b,
        None => return None,
    };
    if !text::str_eq(b.m.as_str(), BEACON_MAGIC) || b.v != 1 || b.port == 0 {
        return None;
    }
    let pk = match keystore::read_b64(b.pk.as_str()) {
        Some(pk) => pk,
        None => return None,
    };
    if pk.len() != 32 {
        return None;
    }
    // Ignore our own beacons coming back from the network.
    if bytes::bytes_equal(pk.as_slice(), own_pk) {
        return None;
    }
    Some(
        DiscoveredPeer {
            device_id: fingerprint::device_id(pk.as_slice()),
            public_key: pk,
            name: util::clamp_str(b.name.as_str(), 32),
            platform: util::clamp_str(b.platform.as_str(), 16),
            addr: SocketAddr { ip: src.ip, port: b.port },
        },
    )
}

impl Discovery {
    pub closed spec fn spec_running(&self) -> bool {
        self.running
    }

    pub closed spec fn spec_info(&self) -> BeaconInfo {
        self.info
    }

    /// Start to announce and to listen.
    pub fn start(info: BeaconInfo) -> (r: Self)
        ensures
            r.spec_running(),
            r.spec_info() == info,
    {
        Discovery { running: true, info }
    }

    /// Whether the loops go on.
    pub fn is_running(&self) -> (r: bool)
        ensures
            r == self.spec_running(),
    {
        self.running
    }

    /// Change the announced name / port / platform at runtime.
    pub fn update<F: FnOnce(BeaconInfo) -> BeaconInfo>(&mut self, f: F)
        requires
            f.requires((old(self).spec_info(),)),
        ensures
            f.ensures((old(self).spec_info(),), final(self).spec_info()),
            final(self).spec_running() == old(self).spec_running(),
    {
        let mut info = BeaconInfo {
            public_key: Vec::new(),
            name: String::new(),
            port: 0,
            platform: String::new(),
            announce: false,
        };
        std::mem::swap(&mut info, &mut self.info);
        self.info = f(info);
    }

    pub fn stop(&mut self)
        ensures
            !final(self).spec_running(),
            final(self).spec_info() == old(self).spec_info(),
    {
        self.running = false;
    }

    /// The bytes to send out now, if anything is to be announced.
    pub fn payload(&self) -> (r: Option<Vec<u8>>)
        requires
            self.spec_info().public_key@.len() <= usize::MAX / 4,
        ensures
            match r {
                Some(v) => self.spec_info().announce && v@ == encode_utf8(
                    announcement(self.spec_info()),
                ) && v@.len() <= MAX_BEACON_BYTES,
                None => self.spec_info().announce ==> encode_utf8(
                    announcement(self.spec_info()),
                ).len() > MAX_BEACON_BYTES,
            },
    {
        if self.info.announce {
            encode_beacon(&self.info)
        } else {
            None
        }
    }
}

/// The addresses that an announcement goes to: the global broadcast address,
/// the multicast group and the broadcast address of each interface.
pub fn announce_targets(broadcasts: &[u32]) -> (r: Vec<SocketAddr>)
    ensures
        r@ == seq![
            SocketAddr { ip: IpAddr::V4(BROADCAST), port: DISCOVERY_PORT },
            SocketAddr { ip: IpAddr::V4(MULTICAST_GROUP), port: DISCOVERY_PORT },
        ] + broadcasts@.map_values(
            |b: u32| SocketAddr { ip: IpAddr::V4(b), port: DISCOVERY_PORT },
        ),
{
    let mut r: Vec<SocketAddr> = Vec::new();
    r.push(SocketAddr { ip: IpAddr::V4(BROADCAST), port: DISCOVERY_PORT });
    r.push(SocketAddr { ip: IpAddr::V4(MULTICAST_GROUP), port: DISCOVERY_PORT });
    let ghost head = r@;
    let ghost f = |b: u32| SocketAddr { ip: IpAddr::V4(b), port: DISCOVERY_PORT };
    let mut i: usize = 0;
    while i < broadcasts.len()
        invariant
            i <= broadcasts@.len(),
            f == (|b: u32| SocketAddr { ip: IpAddr::V4(b), port: DISCOVERY_PORT }),
            r@ == head + broadcasts@.take(i as int).map_values(f),
        decreases broadcasts.len() - i,
    {
        r.push(SocketAddr { ip: IpAddr::V4(broadcasts[i]), port: DISCOVERY_PORT });
        proof {
            assert(r@ =~= head + broadcasts@.take(i + 1).map_values(f));
        }
        i = i + 1;
    }
    proof {
        assert(broadcasts@.take(broadcasts@.len() as int) =~= broadcasts@);
        assert(head =~= seq![
            SocketAddr { ip: IpAddr::V4(BROADCAST), port: DISCOVERY_PORT },
            SocketAddr { ip: IpAddr::V4(MULTICAST_GROUP), port: DISCOVERY_PORT },
        ]);
    }
    r
}

/// The next nap of a sleep that still has to last `left`, so that a stop is
/// noticed soon.
pub fn sleep_step(left: u64) -> (r: u64)
    ensures
        r == if left < SLEEP_STEP {
            left
        } else {
            SLEEP_STEP
        },
{
    if left < SLEEP_STEP {
        left
    } else {
        SLEEP_STEP
    }
}

/// The address on which an interface takes part in multicast, if it does: not
/// on the loopback, and only over IPv4.
pub open spec fn multicast_addr(i: Interface) -> Option<u32> {
    match i.ip {
        IpAddr::V4(a) => if i.loopback {
            None
        } else {
            Some(a)
        },
        IpAddr::V6(_) => None,
    }
}

/// The addresses on which to join the multicast group, in the order of the
/// interfaces.
pub open spec fn multicast_addrs(ifaces: Seq<Interface>) -> Seq<u32>
    decreases ifaces.len(),
{
    if ifaces.len() == 0 {
        Seq::empty()
    } else {
        match multicast_addr(ifaces.last()) {
            Some(a) => multicast_addrs(ifaces.drop_last()).push(a),
            None => multicast_addrs(ifaces.drop_last()),
        }
    }
}

/// See [`multicast_addrs`].
pub fn join_multicast(ifaces: &[Interface]) -> (r: Vec<u32>)
    ensures
        r@ == multicast_addrs(ifaces@),
{
    let mut r: Vec<u32> = Vec::new();
    let mut i: usize = 0;
    while i < ifaces.len()
        invariant
            i <= ifaces@.len(),
            r@ == multicast_addrs(ifaces@.take(i as int)),
        decreases ifaces.len() - i,
    {
        proof {
            assert(ifaces@.take(i + 1).drop_last() =~= ifaces@.take(i as int));
        }
        let f = ifaces[i];
        if !f.loopback {
            if let IpAddr::V4(a) = f.ip {
                r.push(a);
            }
        }
        i = i + 1;
    }
    proof {
        assert(ifaces@.take(ifaces@.len() as int) =~= ifaces@);
    }
    r
}

/// The broadcast address of an interface that is not the loopback.
pub open spec fn usable_broadcast(i: Interface) -> Option<u32> {
    if i.loopback {
        None
    } else {
        i.broadcast
    }
}

/// Whether some interface broadcasts to `b`.
pub open spec fn broadcasts_to(ifaces: Seq<Interface>, b: u32) -> bool {
    exists|i: int| 0 <= i < ifaces.len() && usable_broadcast(#[trigger] ifaces[i]) == Some(b)
}

/// In ascending order, nothing twice.
pub open spec fn ascending(s: Seq<u32>) -> bool {
    forall|i: int, j: int| 0 <= i < j < s.len() ==> #[trigger] s[i] < #[trigger] s[j]
}

/// Adds a number to an ascending list, unless it is there.
fn insert_ascending(v: &mut Vec<u32>, b: u32)
    requires
        ascending(old(v)@),
    ensures
        ascending(final(v)@),
        forall|x: u32| #[trigger] final(v)@.contains(x) <==> old(v)@.contains(x) || x == b,
{
    let ghost pre = v@;
    let mut i: usize = 0;
    while i < v.len() && v[i] < b
        invariant
            i <= v@.len(),
            v@ == pre,
            forall|j: int| 0 <= j < i ==> pre[j] < b,
        decreases v.len() - i,
    {
        i = i + 1;
    }
    if i < v.len() && v[i] == b {
        proof {
            assert(pre[i as int] == b);
        }
        return;
    }
    v.insert(i, b);
    proof {
        let post = v@;
        assert forall|j: int, k: int| 0 <= j < k < post.len() implies #[trigger] post[j]
            < #[trigger] post[k] by {
            let a = if j < i {
                j
            } else {
                j - 1
            };
            let c = if k < i {
                k
            } else {
                k - 1
            };
            if j == i {
                assert(post[k] == pre[c]);
                if c > i {
                    assert(pre[i as int] < pre[c]);
                }
            } else if k == i {
                assert(post[j] == pre[a]);
            } else {
                assert(post[j] == pre[a] && post[k] == pre[c]);
            }
        }
        assert forall|x: u32| #[trigger] post.contains(x) <==> pre.contains(x) || x == b by {
            if post.contains(x) {
                let j = choose|j: int| 0 <= j < post.len() && post[j] == x;
                if j < i {
                    assert(pre[j] == x);
                } else if j > i {
                    assert(pre[j - 1] == x);
                }
            }
            if pre.contains(x) {
                let j = choose|j: int| 0 <= j < pre.len() && pre[j] == x;
                if j < i {
                    assert(post[j] == x);
                } else {
                    assert(post[j + 1] == x);
                }
            }
            if x == b {
                assert(post[i as int] == x);
            }
        }
    }
}

/// Per-interface broadcast addresses, so we also reach subnets where the
/// global 255.255.255.255 broadcast is filtered: in ascending order, each once.
pub fn interface_broadcasts(ifaces: &[Interface]) -> (r: Vec<u32>)
    ensures
        ascending(r@),
        forall|b: u32| #[trigger] r@.contains(b) <==> broadcasts_to(ifaces@, b),
{
    let mut r: Vec<u32> = Vec::new();
    let mut i: usize = 0;
    while i < ifaces.len()
        invariant
            i <= ifaces@.len(),
            ascending(r@),
            forall|b: u32|
                #[trigger] r@.contains(b) <==> broadcasts_to(ifaces@.take(i as int), b),
        decreases ifaces.len() - i,
    {
        let f = ifaces[i];
        let ghost before = ifaces@.take(i as int);
        let ghost after = ifaces@.take(i + 1);
        let ghost known = r@;
        if !f.loopback {
            if let Some(b) = f.broadcast {
                insert_ascending(&mut r, b);
            }
        }
        proof {
            assert forall|b: u32| #[trigger] r@.contains(b) <==> broadcasts_to(after, b) by {
                assert(known.contains(b) <==> broadcasts_to(before, b));
                if broadcasts_to(before, b) {
                    let j = choose|j: int|
                        0 <= j < before.len() && usable_broadcast(#[trigger] before[j]) == Some(b);
                    assert(after[j] == before[j]);
                    assert(usable_broadcast(after[j]) == Some(b));
                }
                if usable_broadcast(f) == Some(b) {
                    assert(after[i as int] == f);
                }
                if broadcasts_to(after, b) {
                    let j = choose|j: int|
                        0 <= j < after.len() && usable_broadcast(#[trigger] after[j]) == Some(b);
                    if j < i {
                        assert(before[j] == after[j]);
                    } else {
                        assert(after[j] == f);
                    }
                }
            }
        }
        i = i + 1;
    }
    proof {
        assert(ifaces@.take(ifaces@.len() as int) =~= ifaces@);
    }
    r
}

/// The address of an interface that other devices of the local network reach.
pub open spec fn lan_ipv4(i: Interface) -> Option<u32> {
    match i.ip {
        IpAddr::V4(a) => if !i.loopback && util::lan_v4(a) {
            Some(a)
        } else {
            None
        },
        IpAddr::V6(_) => None,
    }
}

/// Best-effort local IPv4 for display and for the pairing QR code: that of the
/// first interface that has one.
pub fn local_ipv4(ifaces: &[Interface]) -> (r: Option<u32>)
    ensures
        match r {
            Some(a) => exists|i: int|
                0 <= i < ifaces@.len() && lan_ipv4(#[trigger] ifaces@[i]) == Some(a) && forall|
                    j: int,
                |
                    0 <= j < i ==> lan_ipv4(#[trigger] ifaces@[j]) is None,
            None => forall|j: int|
                0 <= j < ifaces@.len() ==> lan_ipv4(#[trigger] ifaces@[j]) is None,
        },
{
    let mut i: usize = 0;
    while i < ifaces.len()
        invariant
            i <= ifaces@.len(),
            forall|j: int| 0 <= j < i ==> lan_ipv4(#[trigger] ifaces@[j]) is None,
        decreases ifaces.len() - i,
    {
        let f = ifaces[i];
        if !f.loopback {
            if let IpAddr::V4(a) = f.ip {
                if util::is_lan_addr(f.ip) {
                    proof {
                        assert(lan_ipv4(ifaces@[i as int]) == Some(a));
                    }
                    return Some(a);
                }
            }
        }
        i = i + 1;
    }
    None
}

/// Simple per-source token bucket.
pub struct RateLimiter {
    pub seen: Sources,
}

/// The sources remembered when a datagram comes in.
pub open spec fn remembered(es: Seq<Source>, now: u64) -> Seq<Source> {
    if es.len() > MAX_SOURCES {
        limit::fresh(es, now, SOURCE_MEMORY)
    } else {
        es
    }
}

/// Whether a datagram of a source is taken.
pub open spec fn takes(es: Seq<Source>, ip: IpAddr, now: u64) -> bool {
    &&& remembered(es, now).len() <= MAX_SOURCES
    &&& limit::current(remembered(es, now), ip, now, SECOND).1 < RATE_PER_SOURCE
}

/// The sources after a datagram of a source was taken or not.
pub open spec fn noted(es: Seq<Source>, ip: IpAddr, now: u64) -> Seq<Source> {
    if remembered(es, now).len() <= MAX_SOURCES {
        limit::bumped(remembered(es, now), ip, now, SECOND)
    } else {
        remembered(es, now)
    }
}

impl RateLimiter {
    pub open spec fn wf(&self) -> bool {
        self.seen.wf()
    }

    pub fn new() -> (r: Self)
        ensures
            r.wf(),
            r.seen.entries@ == Seq::<Source>::empty(),
    {
        RateLimiter { seen: Sources::new() }
    }

    /// Whether a datagram of `ip` is taken now, which counts it.
    pub fn allow(&mut self, ip: IpAddr, now: u64) -> (r: bool)
        requires
            old(self).wf(),
            old(self).seen.countable(ip, now, SECOND),
        ensures
            final(self).wf(),
            r == takes(old(self).seen.entries@, ip, now),
            final(self).seen.entries@ == noted(old(self).seen.entries@, ip, now),
    {
        let ghost es = self.seen.entries@;
        // Keep the table from growing without bound under a spoofed-source flood.
        if self.seen.entries.len() > MAX_SOURCES {
            self.seen.retain_fresh(now, SOURCE_MEMORY);
            proof {
                limit::lemma_current_of_fresh(es, ip, now, SECOND, SOURCE_MEMORY);
            }
            if self.seen.entries.len() > MAX_SOURCES {
                return false;
            }
        }
        let n: u32 = self.seen.bump(ip, now, SECOND);
        n <= RATE_PER_SOURCE
    }

    /// Whether a datagram of `len` bytes from `ip` is looked at: it must not be
    /// too large, and only then is it counted.
    pub fn admits(&mut self, len: usize, ip: IpAddr, now: u64) -> (r: bool)
        requires
            old(self).wf(),
            old(self).seen.countable(ip, now, SECOND),
        ensures
            final(self).wf(),
            r == (len <= MAX_BEACON_BYTES && takes(old(self).seen.entries@, ip, now)),
            final(self).seen.entries@ == if len <= MAX_BEACON_BYTES {
                noted(old(self).seen.entries@, ip, now)
            } else {
                old(self).seen.entries@
            },
    {
        if len > MAX_BEACON_BYTES {
            return false;
        }
        self.allow(ip, now)
    }
}

/// How many of the datagrams that a source sends at the given times are taken.
pub open spec fn taken(es: Seq<Source>, ip: IpAddr, times: Seq<u64>) -> nat
    decreases times.len(),
{
    if times.len() == 0 {
        0
    } else {
        (if takes(es, ip, times[0]) {
            1nat
        } else {
            0nat
        }) + taken(noted(es, ip, times[0]), ip, times.skip(1))
    }
}

/// Of a flood that a source starts and sends within one second, no more is taken
/// than the rate allows; exactly that much while the table has room.
pub proof fn law_flood_is_capped(es: Seq<Source>, ip: IpAddr, start: u64, times: Seq<u64>)
    requires
        limit::distinct(es),
        limit::index_of(es, ip) < 0,
        times.len() < u32::MAX,
        forall|i: int| 0 <= i < times.len() ==> start <= #[trigger] times[i] < start + SECOND,
    ensures
        taken(es, ip, times) <= RATE_PER_SOURCE,
        es.len() < MAX_SOURCES ==> taken(es, ip, times) == if times.len() < RATE_PER_SOURCE {
            times.len()
        } else {
            RATE_PER_SOURCE as nat
        },
    decreases times.len(),
{
    if times.len() > 0 {
        let now = times[0];
        let kept = remembered(es, now);
        limit::lemma_fresh_distinct(es, now, SOURCE_MEMORY);
        limit::lemma_index_of(es, ip);
        limit::lemma_index_of(kept, ip);
        if limit::index_of(kept, ip) >= 0 && kept != es {
            let e = kept[limit::index_of(kept, ip)];
            assert(kept.contains(e));
            let k = choose|k: int| 0 <= k < es.len() && es[k] == e;
            assert(es[k].ip == ip);
        }
        let rest = times.skip(1);
        assert forall|i: int| 0 <= i < rest.len() implies start <= #[trigger] rest[i] < start
            + SECOND by {
            assert(rest[i] == times[i + 1]);
        }
        let next = noted(es, ip, now);
        if kept.len() <= MAX_SOURCES {
            limit::lemma_bumped_self(kept, ip, now, SECOND);
            lemma_flood(next, ip, now, 1, start, rest);
        } else {
            law_flood_is_capped(next, ip, start, rest);
        }
    }
}

/// What is still taken of a flood once the source has been counted `count`
/// times in its window.
proof fn lemma_flood(
    es: Seq<Source>,
    ip: IpAddr,
    since: u64,
    count: u32,
    start: u64,
    times: Seq<u64>,
)
    requires
        limit::distinct(es),
        limit::index_of(es, ip) >= 0,
        es[limit::index_of(es, ip)] == (Source { ip, since, count }),
        start <= since < start + SECOND,
        count + times.len() <= u32::MAX,
        forall|i: int| 0 <= i < times.len() ==> start <= #[trigger] times[i] < start + SECOND,
    ensures
        taken(es, ip, times) <= left_of(count),
        es.len() <= MAX_SOURCES ==> taken(es, ip, times) == if times.len() < left_of(count) {
            times.len()
        } else {
            left_of(count)
        },
    decreases times.len(),
{
    if times.len() > 0 {
        let now = times[0];
        let kept = remembered(es, now);
        limit::lemma_fresh_distinct(es, now, SOURCE_MEMORY);
        limit::lemma_index_of(es, ip);
        limit::lemma_current_of_fresh(es, ip, now, SECOND, SOURCE_MEMORY);
        assert(limit::spec_elapsed(now, since) < SECOND);
        assert(limit::current(es, ip, now, SECOND) == (since, count));
        let rest = times.skip(1);
        assert forall|i: int| 0 <= i < rest.len() implies start <= #[trigger] rest[i] < start
            + SECOND by {
            assert(rest[i] == times[i + 1]);
        }
        let next = noted(es, ip, now);
        if kept.len() <= MAX_SOURCES {
            limit::lemma_bumped_self(kept, ip, now, SECOND);
            lemma_flood(next, ip, since, (count + 1) as u32, start, rest);
        } else {
            let keep = |e: Source| limit::spec_elapsed(now, e.since) < SOURCE_MEMORY;
            let i = limit::index_of(es, ip);
            assert(keep(es[i]));
            es.lemma_filter_contains(keep, i);
            let k = choose|k: int| 0 <= k < kept.len() && kept[k] == es[i];
            limit::lemma_index_unique(kept, k);
            lemma_flood(next, ip, since, count, start, rest);
        }
    }
}

/// How many datagrams a source has left in its window.
pub open spec fn left_of(count: u32) -> nat {
    if count < RATE_PER_SOURCE {
        (RATE_PER_SOURCE - count) as nat
    } else {
        0
    }
}

/// A datagram of one source is not counted against another.
pub proof fn law_sources_are_independent(
    es: Seq<Source>,
    ip: IpAddr,
    now: u64,
    other: IpAddr,
)
    requires
        limit::distinct(es),
        other != ip,
        es.len() < MAX_SOURCES,
    ensures
        takes(noted(es, ip, now), other, now) == takes(es, other, now),
{
    limit::lemma_index_of(es, ip);
    limit::lemma_bumped_others(es, ip, now, SECOND, other);
}

/// Our own announcement, with a 32-byte key and a platform name of at most 16
/// characters, always fits into a beacon.
pub proof fn law_own_beacon_fits(info: BeaconInfo)
    requires
        info.public_key@.len() == 32,
        info.platform@.len() <= 16,
    ensures
        encode_utf8(announcement(info)).len() <= MAX_BEACON_BYTES,
{
    let pk = codec::b64(false, info.public_key@);
    let name = util::clamped(info.name@, 32);
    codec::lemma_b64_plain(false, info.public_key@);
    codec::lemma_b64_len(false, info.public_key@);
    codec::lemma_plain_json(pk);
    codec::lemma_json_string_bytes(name);
    codec::lemma_json_string_bytes(info.platform@);
    reveal_strlit("SYNCMOB");
    codec::lemma_json_string_bytes(BEACON_MAGIC@);
    reveal_strlit("{\"m\":");
    reveal_strlit(",\"v\":");
    reveal_strlit(",\"pk\":");
    reveal_strlit(",\"name\":");
    reveal_strlit(",\"port\":");
    reveal_strlit(",\"platform\":");
    reveal_strlit("}");
    text::lemma_utf8_len_bounds("{\"m\":"@);
    text::lemma_utf8_len_bounds(",\"v\":"@);
    codec::lemma_ascii_bytes(",\"pk\":"@);
    codec::lemma_ascii_bytes(",\"name\":"@);
    codec::lemma_ascii_bytes(",\"port\":"@);
    codec::lemma_ascii_bytes(",\"platform\":"@);
    codec::lemma_ascii_bytes("{\"m\":"@);
    codec::lemma_ascii_bytes(",\"v\":"@);
    codec::lemma_ascii_bytes("}"@);
    text::lemma_decimal_bytes(1);
    text::lemma_decimal_bytes(info.port as nat);
    let a1 = "{\"m\":"@ + codec::json_string(BEACON_MAGIC@);
    let a2 = a1 + ",\"v\":"@;
    let a3 = a2 + text::decimal(1);
    let a4 = a3 + ",\"pk\":"@;
    let a5 = a4 + codec::json_string(pk);
    let a6 = a5 + ",\"name\":"@;
    let a7 = a6 + codec::json_string(name);
    let a8 = a7 + ",\"port\":"@;
    let a9 = a8 + text::decimal(info.port as nat);
    let a10 = a9 + ",\"platform\":"@;
    let a11 = a10 + codec::json_string(info.platform@);
    text::lemma_utf8_len_concat("{\"m\":"@, codec::json_string(BEACON_MAGIC@));
    text::lemma_utf8_len_concat(a1, ",\"v\":"@);
    text::lemma_utf8_len_concat(a2, text::decimal(1));
    text::lemma_utf8_len_concat(a3, ",\"pk\":"@);
    text::lemma_utf8_len_concat(a4, codec::json_string(pk));
    text::lemma_utf8_len_concat(a5, ",\"name\":"@);
    text::lemma_utf8_len_concat(a6, codec::json_string(name));
    text::lemma_utf8_len_concat(a7, ",\"port\":"@);
    text::lemma_utf8_len_concat(a8, text::decimal(info.port as nat));
    text::lemma_utf8_len_concat(a9, ",\"platform\":"@);
    text::lemma_utf8_len_concat(a10, codec::json_string(info.platform@));
    text::lemma_utf8_len_concat(a11, "}"@);
    assert(announcement(info) == a11 + "}"@);
}

/// A beacon that announces a device and comes from the local network is taken
/// for that device by everybody else, with its key, name, platform and port, and
/// ignored by the device itself.
pub proof fn law_announcement_is_accepted(
    raw: Seq<u8>,
    b: Beacon,
    info: BeaconInfo,
    src: SocketAddr,
    own_pk: Seq<u8>,
    r: Option<DiscoveredPeer>,
)
    requires
        raw.len() <= MAX_BEACON_BYTES,
        util::lan_addr(src.ip),
        announces(b, info),
        info.public_key@.len() == 32,
        info.port != 0,
        validated(raw, Some(b), src, own_pk, r),
    ensures
        own_pk == info.public_key@ ==> r is None,
        own_pk != info.public_key@ ==> (r matches Some(p) && {
            &&& p.public_key@ == info.public_key@
            &&& p.device_id.0@ == fingerprint::device_bytes(info.public_key@)
            &&& p.name@ == util::clamped(info.name@, 32)
            &&& p.platform@ == util::clamped(info.platform@, 16)
            &&& p.addr == (SocketAddr { ip: src.ip, port: info.port })
        }),
{
    keystore::lemma_b64_read(info.public_key@);
    util::law_clamped_is_stable(info.name@, 32);
}

/// A beacon from outside the local network is never taken.
pub proof fn law_foreign_beacons_are_ignored(
    raw: Seq<u8>,
    parsed: Option<Beacon>,
    src: SocketAddr,
    own_pk: Seq<u8>,
)
    requires
        !util::lan_addr(src.ip),
    ensures
        claimed_key(raw, parsed, src, own_pk) is None,
{
}

} // verus!
