//! Connections: who is let in, what a new one shows, how peers are found and
//! what the end of a connection leaves.

use vstd::prelude::*;
use crate::engine;
use crate::engine::guard::ConnGuard;
use crate::engine::outgoing;
use crate::engine::peers;
use crate::engine::table;
use crate::engine::transfer::IncomingTransfer;
use crate::engine::{Action, Engine, EngineEvent};
use crate::net::discovery::DiscoveredPeer;
use crate::proto::Message;
use crate::security::fingerprint;
use crate::security::fingerprint::DeviceId;
use crate::util::{IpAddr, SocketAddr};

verus! {

/// A device that is not trusted gets a prompt, and what it shows is of this
/// session and this key: the code that anybody computes from the handshake hash,
/// the fingerprint that anybody computes from the key, and the address. The same
/// stands in the table.
pub proof fn law_prompt_shows_the_code_of_the_session(
    e: &mut Engine,
    key: Vec<u8>,
    hash: &[u8],
    addr: SocketAddr,
    shown: &str,
    we_dialed: bool,
    expect: Option<Vec<u8>>,
    now: u64,
    r: (DeviceId, bool, Vec<Action>),
    of_key: &[u8],
    code: String,
    print: String,
    device: DeviceId,
)
    requires
        call_ensures(
            Engine::begin_connection,
            (e, key, hash, addr, shown, we_dialed, expect, now),
            r,
        ),
        of_key@ == key@,
        call_ensures(fingerprint::sas_code, (hash,), code),
        call_ensures(fingerprint::fingerprint, (of_key,), print),
        call_ensures(fingerprint::device_id, (of_key,), device),
        r.1,
        !old(e).trust.authorises(key@),
    ensures
        r.0.0@ == device.0@,
        final(e).conns@.contains_key(engine::dk(r.0)),
        ({
            let c = final(e).conns@[engine::dk(r.0)];
            &&& c.sas@ == code@
            &&& c.fingerprint@ == print@
            &&& c.key@ == key@
            &&& c.addr == addr
            &&& c.prompted_at == Some(now)
            &&& !c.authorised && !c.local_ok && !c.remote_ok
        }),
        r.2@.len() > 0,
        r.2@.last() matches Action::Emit(
            EngineEvent::PairingRequired {
                device: d,
                name,
                fingerprint: f,
                sas,
                addr: at,
                remote_initiated,
            },
        ) && {
            &&& d == r.0
            &&& sas@ == code@
            &&& f@ == print@
            &&& at == addr
            &&& remote_initiated == !we_dialed
        },
        forall|i: int|
            0 <= i < r.2@.len() ==> !(#[trigger] r.2@[i] matches Action::Emit(
                EngineEvent::Connected(_),
            )),
        (exists|i: int|
            0 <= i < r.2@.len() && (#[trigger] r.2@[i] matches Action::Send {
                to,
                msg: Message::PairRequest(_),
            } && to == r.0)) <==> we_dialed,
{
    if we_dialed {
        assert(r.2@[1] matches Action::Send { to, msg: Message::PairRequest(_) } && to == r.0);
    }
}

/// Two devices that finished one handshake show one code, whoever dialled.
pub proof fn law_both_prompts_show_one_code(
    a: &mut Engine,
    b: &mut Engine,
    key_a: Vec<u8>,
    key_b: Vec<u8>,
    hash_a: &[u8],
    hash_b: &[u8],
    addr_a: SocketAddr,
    addr_b: SocketAddr,
    shown_a: &str,
    shown_b: &str,
    expect_a: Option<Vec<u8>>,
    expect_b: Option<Vec<u8>>,
    now_a: u64,
    now_b: u64,
    dialed_a: bool,
    dialed_b: bool,
    ra: (DeviceId, bool, Vec<Action>),
    rb: (DeviceId, bool, Vec<Action>),
)
    requires
        call_ensures(
            Engine::begin_connection,
            (a, key_a, hash_a, addr_a, shown_a, dialed_a, expect_a, now_a),
            ra,
        ),
        call_ensures(
            Engine::begin_connection,
            (b, key_b, hash_b, addr_b, shown_b, dialed_b, expect_b, now_b),
            rb,
        ),
        hash_a@ == hash_b@,
        ra.1,
        rb.1,
        !old(a).trust.authorises(key_a@),
        !old(b).trust.authorises(key_b@),
    ensures
        ra.2@.len() > 0,
        rb.2@.len() > 0,
        ra.2@.last() matches Action::Emit(EngineEvent::PairingRequired { sas: x, .. })
            && (rb.2@.last() matches Action::Emit(EngineEvent::PairingRequired { sas: y, .. })
            && x@ == y@),
{
}

/// A device that is trusted is connected without a prompt, under the name that
/// it was recorded with.
pub proof fn law_trusted_device_is_connected_at_once(
    e: &mut Engine,
    key: Vec<u8>,
    hash: &[u8],
    addr: SocketAddr,
    shown: &str,
    we_dialed: bool,
    expect: Option<Vec<u8>>,
    now: u64,
    r: (DeviceId, bool, Vec<Action>),
    code: String,
)
    requires
        call_ensures(
            Engine::begin_connection,
            (e, key, hash, addr, shown, we_dialed, expect, now),
            r,
        ),
        call_ensures(fingerprint::sas_code, (hash,), code),
        r.1,
        old(e).trust.authorises(key@),
    ensures
        final(e).conns@.contains_key(engine::dk(r.0)),
        ({
            let c = final(e).conns@[engine::dk(r.0)];
            &&& c.authorised
            &&& c.key@ == key@
            &&& c.addr == addr
            &&& c.sas@ == code@
            &&& c.prompted_at is None
            &&& old(e).trust.spec_get(key@) matches Some(d) && c.name@ == d.name@
        }),
        r.2@.len() == 2,
        r.2@[0] matches Action::Send { to, msg: Message::Hello(_) } && to == r.0,
        r.2@[1] matches Action::Emit(EngineEvent::Connected(info)) && {
            &&& info.device == r.0
            &&& info.paired
            &&& info.addr == addr
            &&& info.sas@ == code@
            &&& old(e).trust.spec_get(key@) matches Some(d) && info.name@ == d.name@
        },
{
}

/// A connection is kept if and only if the peer proved the key that it was
/// expected to own, is not blocked, is trusted or new pairings are allowed, is
/// not connected already, and there are fewer than sixteen. Nothing but its own
/// entry changes; what is turned away changes nothing.
pub proof fn law_who_is_let_in(
    e: &mut Engine,
    key: Vec<u8>,
    hash: &[u8],
    addr: SocketAddr,
    shown: &str,
    we_dialed: bool,
    expect: Option<Vec<u8>>,
    now: u64,
    r: (DeviceId, bool, Vec<Action>),
    other: DeviceId,
)
    requires
        call_ensures(
            Engine::begin_connection,
            (e, key, hash, addr, shown, we_dialed, expect, now),
            r,
        ),
        other != r.0,
    ensures
        r.1 <==> {
            &&& expect matches Some(k) ==> k@ == key@
            &&& old(e).trust.spec_get(key@) matches Some(d) ==> !d.blocked
            &&& old(e).trust.spec_get(key@) is Some || old(e).config.allow_new_pairings
            &&& !old(e).conns@.contains_key(engine::dk(r.0))
            &&& old(e).conns@.len() < 16
        },
        !r.1 ==> *final(e) == *old(e),
        final(e).conns@.contains_key(engine::dk(other)) == old(e).conns@.contains_key(
            engine::dk(other),
        ),
        old(e).conns@.contains_key(engine::dk(other)) ==> final(e).conns@[engine::dk(other)]
            == old(e).conns@[engine::dk(other)],
        final(e).trust == old(e).trust,
        final(e).config == old(e).config,
        final(e).peers == old(e).peers,
        final(e).incoming == old(e).incoming,
        final(e).outgoing == old(e).outgoing,
{
    if engine::dk(other) == engine::dk(r.0) {
        engine::lemma_dk_injective(other, r.0);
    }
}

/// A peer that proves another key than the promised one is turned away with a
/// warning that names it, and a stranger who may not pair is turned away with a
/// notice. Nothing is sent to either.
pub proof fn law_turned_away_peers_are_reported(
    e: &mut Engine,
    key: Vec<u8>,
    hash: &[u8],
    addr: SocketAddr,
    shown: &str,
    we_dialed: bool,
    expect: Option<Vec<u8>>,
    now: u64,
    r: (DeviceId, bool, Vec<Action>),
)
    requires
        call_ensures(
            Engine::begin_connection,
            (e, key, hash, addr, shown, we_dialed, expect, now),
            r,
        ),
        !r.1,
    ensures
        (expect matches Some(k) && k@ != key@) ==> r.2@.len() == 1 && (r.2@[0] matches Action::Emit(
            EngineEvent::Error(t),
        ) && t@ == "ВНИМАНИЕ: "@ + shown@
            + " предъявил другой ключ, чем ожидалось. Соединение разорвано."@),
        (expect matches Some(k) ==> k@ == key@) ==> forall|i: int|
            0 <= i < r.2@.len() ==> #[trigger] r.2@[i] matches Action::Emit(EngineEvent::Notice(_)),
        (expect matches Some(k) ==> k@ == key@) ==> (r.2@.len() == 1 <==> old(e).trust.spec_get(
            key@,
        ) is None && !old(e).config.allow_new_pairings),
        (expect matches Some(k) ==> k@ == key@) ==> r.2@.len() <= 1,
{
}

/// What a new connection is told first is the name and the platform of this
/// device.
pub proof fn law_greeting_tells_the_own_name(
    e: &mut Engine,
    key: Vec<u8>,
    hash: &[u8],
    addr: SocketAddr,
    shown: &str,
    we_dialed: bool,
    expect: Option<Vec<u8>>,
    now: u64,
    r: (DeviceId, bool, Vec<Action>),
)
    requires
        call_ensures(
            Engine::begin_connection,
            (e, key, hash, addr, shown, we_dialed, expect, now),
            r,
        ),
        r.1,
    ensures
        r.2@.len() > 0,
        r.2@[0] matches Action::Send { to, msg: Message::Hello(h) } && {
            &&& to == r.0
            &&& h.version == 1
            &&& h.platform@ == old(e).platform@
            &&& h.name@.len() <= 64
            &&& old(e).config.device_name@.len() <= 64 ==> h.name@ == old(e).config.device_name@
            &&& old(e).config.device_name@.len() > 64 ==> h.name@
                == old(e).config.device_name@.take(64)
        },
        forall|i: int|
            0 <= i < r.2@.len() ==> (#[trigger] r.2@[i] matches Action::Send {
                msg: Message::PairRequest(p),
                ..
            } ==> p.platform@ == old(e).platform@ && (old(e).config.device_name@.len() <= 64
                ==> p.name@ == old(e).config.device_name@)),
{
}

/// Whether an address may start a handshake: connections are accepted, the
/// address is a local one or others are accepted, there are fewer than sixteen,
/// and the number of attempts allows it. Nothing but the count of attempts
/// changes, and that only where no other reason turns the address away.
pub proof fn law_who_may_start_a_handshake(e: &mut Engine, ip: IpAddr, now: u64, r: bool, local: bool)
    requires
        call_ensures(Engine::admits, (e, ip, now), r),
        call_ensures(crate::util::is_lan_addr, (ip,), local),
    ensures
        r ==> old(e).config.accept_incoming && (local || !old(e).config.lan_only)
            && old(e).conns@.len() < 16,
        !(old(e).config.accept_incoming && (local || !old(e).config.lan_only)
            && old(e).conns@.len() < 16) ==> final(e).guard.seen.entries@
            == old(e).guard.seen.entries@,
        old(e).config.accept_incoming && (local || !old(e).config.lan_only) && old(
            e,
        ).conns@.len() < 16 && old(e).guard.seen.entries@.len() == 0 ==> r,
        final(e).conns == old(e).conns,
        final(e).trust == old(e).trust,
        final(e).config == old(e).config,
{
}

/// Where nothing else turns an address away, the guard decides, and counts the
/// attempt.
pub proof fn law_guard_decides_about_handshakes(
    e: &mut Engine,
    g: &mut ConnGuard,
    ip: IpAddr,
    now: u64,
    r: bool,
    local: bool,
    allowed: bool,
)
    requires
        call_ensures(Engine::admits, (e, ip, now), r),
        call_ensures(crate::util::is_lan_addr, (ip,), local),
        *old(g) == old(e).guard,
        call_ensures(ConnGuard::allow, (g, ip, now), allowed),
        old(e).config.accept_incoming,
        local || !old(e).config.lan_only,
        old(e).conns@.len() < 16,
    ensures
        r == allowed,
        final(e).guard.seen.entries@ == final(g).seen.entries@,
{
}

/// A stranger has no name yet, neither in the prompt nor in the table; and one
/// who may not pair is named by the identifier in the notice.
pub proof fn law_strangers_have_no_name(
    e: &mut Engine,
    key: Vec<u8>,
    hash: &[u8],
    addr: SocketAddr,
    shown: &str,
    we_dialed: bool,
    expect: Option<Vec<u8>>,
    now: u64,
    r: (DeviceId, bool, Vec<Action>),
    id: &DeviceId,
    written: String,
)
    requires
        call_ensures(
            Engine::begin_connection,
            (e, key, hash, addr, shown, we_dialed, expect, now),
            r,
        ),
        old(e).trust.spec_get(key@) is None,
        *id == r.0,
        call_ensures(DeviceId::text, (id,), written),
    ensures
        r.1 ==> final(e).conns@[engine::dk(r.0)].name@.len() == 0,
        r.1 ==> (r.2@.last() matches Action::Emit(EngineEvent::PairingRequired { name, .. })
            && name@.len() == 0),
        (expect matches Some(k) ==> k@ == key@) && !old(e).config.allow_new_pairings ==> r.2@.len()
            == 1 && (r.2@[0] matches Action::Emit(EngineEvent::Notice(n)) && n@
            == "Отклонён запрос сопряжения от "@ + written@ + ": новые сопряжения запрещены"@),
{
}

/// An announcement that is noted is what the table then says of the device,
/// known or not: its address, name, platform and key, and the time; whether it
/// is paired is what the trust store says. No other entry changes.
pub proof fn law_last_announcement_counts(
    e: &mut Engine,
    p: DiscoveredPeer,
    now: u64,
    acts: Vec<Action>,
    other: DeviceId,
)
    requires
        call_ensures(Engine::on_beacon, (e, p, now), acts),
        other != p.device_id,
    ensures
        old(e).peers@.contains_key(engine::dk(p.device_id)) || old(e).peers@.len() < 128
            ==> final(e).peers@.contains_key(engine::dk(p.device_id)) && {
            let n = final(e).peers@[engine::dk(p.device_id)];
            &&& n.info.device == p.device_id
            &&& n.info.addr == p.addr
            &&& n.info.name@ == p.name@
            &&& n.info.platform@ == p.platform@
            &&& n.info.public_key@ == p.public_key@
            &&& n.info.paired == old(e).trust.authorises(p.public_key@)
            &&& n.last_seen == now
        },
        final(e).peers@.contains_key(engine::dk(other)) == old(e).peers@.contains_key(
            engine::dk(other),
        ),
        old(e).peers@.contains_key(engine::dk(other)) ==> final(e).peers@[engine::dk(other)]
            == old(e).peers@[engine::dk(other)],
        old(e).peers@.contains_key(engine::dk(p.device_id)) ==> acts@.len() == 0,
        !old(e).peers@.contains_key(engine::dk(p.device_id)) && old(e).peers@.len() < 128
            ==> acts@.len() == 1 && (acts@[0] matches Action::Emit(
            EngineEvent::PeerDiscovered(info),
        ) && info.device == p.device_id && info.addr == p.addr && info.name@ == p.name@
            && info.platform@ == p.platform@ && info.public_key@ == p.public_key@),
        !old(e).peers@.contains_key(engine::dk(p.device_id)) && old(e).peers@.len() >= 128
            ==> acts@.len() == 0 && final(e).peers@ == old(e).peers@,
        final(e).conns == old(e).conns,
        final(e).trust == old(e).trust,
{
    if engine::dk(other) == engine::dk(p.device_id) {
        engine::lemma_dk_injective(other, p.device_id);
    }
}

/// Connecting right after an announcement dials the address that it came from
/// and expects the key that it claimed.
pub proof fn law_connect_dials_where_the_device_was_last_heard(
    e: &mut Engine,
    p: DiscoveredPeer,
    now: u64,
    told: Vec<Action>,
    after: &Engine,
    acts: Vec<Action>,
)
    requires
        call_ensures(Engine::on_beacon, (e, p, now), told),
        old(e).peers@.contains_key(engine::dk(p.device_id)) || old(e).peers@.len() < 128,
        *after == *final(e),
        call_ensures(Engine::connect, (after, p.device_id), acts),
    ensures
        acts@.len() == 1,
        acts@[0] matches Action::Dial { addr, expect_key: Some(k) } && addr == p.addr && k@
            == p.public_key@,
{
}

/// Connecting to a device that did not announce itself dials nothing.
pub proof fn law_unknown_device_is_not_dialled(e: &Engine, device: DeviceId, acts: Vec<Action>)
    requires
        call_ensures(Engine::connect, (e, device), acts),
        !e.peers@.contains_key(engine::dk(device)),
    ensures
        acts@.len() == 1,
        acts@[0] matches Action::Emit(EngineEvent::Error(t)) && t@
            == "Устройство не найдено в сети"@,
{
}

/// A device stays in the list while it has announced itself within the last
/// fifteen seconds, exactly as it was; one that has not is taken out.
pub proof fn law_silent_devices_are_dropped(
    e: &mut Engine,
    now: u64,
    acts: Vec<Action>,
    k: u64,
)
    requires
        call_ensures(Engine::expire_peers, (e, now), acts),
    ensures
        final(e).peers@.contains_key(k) <==> old(e).peers@.contains_key(k) && (now
            < old(e).peers@[k].last_seen || now - old(e).peers@[k].last_seen < 15_000_000_000),
        final(e).peers@.contains_key(k) ==> final(e).peers@[k] == old(e).peers@[k],
        final(e).conns == old(e).conns,
        forall|i: int|
            0 <= i < acts@.len() ==> #[trigger] acts@[i] matches Action::Emit(
                EngineEvent::PeerLost(_),
            ),
{
}

/// The user is told of every device that is dropped, and of no other.
pub proof fn law_dropped_devices_are_told(e: &mut Engine, now: u64, acts: Vec<Action>, k: u64)
    requires
        call_ensures(Engine::expire_peers, (e, now), acts),
        old(e).wf(),
        old(e).peers@.contains_key(k),
    ensures
        acts@.contains(Action::Emit(EngineEvent::PeerLost(old(e).peers@[k].info.device)))
            <==> !final(e).peers@.contains_key(k),
{
    let m = old(e).peers@;
    let ks = choose|ks: Seq<u64>| #[trigger]
        table::keys_of(m, ks) && peers::told_lost(m, peers::silent_keys(m, ks, now), acts@);
    let pred = |x: u64| peers::silent(m[x], now);
    let gone = peers::silent_keys(m, ks, now);
    lemma_filtered(ks, pred);
    assert(ks.contains(k));
    let lost = Action::Emit(EngineEvent::PeerLost(m[k].info.device));
    if !final(e).peers@.contains_key(k) {
        let j = choose|j: int| 0 <= j < ks.len() && ks[j] == k;
        assert(pred(ks[j]));
        assert(gone.contains(ks[j]));
        let i = choose|i: int| 0 <= i < gone.len() && gone[i] == k;
        assert(acts@[i] == lost);
    } else if acts@.contains(lost) {
        let i = choose|i: int| 0 <= i < acts@.len() && acts@[i] == lost;
        assert(acts@[i] == Action::Emit(EngineEvent::PeerLost(m[gone[i]].info.device)));
        assert(pred(gone[i]) && ks.contains(gone[i]));
        assert(m.contains_key(gone[i]));
        assert(engine::dk(m[gone[i]].info.device) == gone[i]);
    }
}

/// What a filter keeps is what was there and passes it.
proof fn lemma_filtered(s: Seq<u64>, pred: spec_fn(u64) -> bool)
    ensures
        forall|i: int|
            0 <= i < s.filter(pred).len() ==> pred(#[trigger] s.filter(pred)[i]) && s.contains(
                s.filter(pred)[i],
            ),
        forall|i: int|
            0 <= i < s.len() && pred(#[trigger] s[i]) ==> s.filter(pred).contains(s[i]),
    decreases s.len(),
{
    reveal(Seq::filter);
    if s.len() > 0 {
        let t = s.drop_last();
        lemma_filtered(t, pred);
        let f = s.filter(pred);
        let g = t.filter(pred);
        assert forall|i: int| 0 <= i < f.len() implies pred(#[trigger] f[i]) && s.contains(
            f[i],
        ) by {
            if i < g.len() {
                assert(f[i] == g[i]);
                assert(t.contains(g[i]));
                let j = choose|j: int| 0 <= j < t.len() && t[j] == g[i];
                assert(s[j] == f[i]);
            } else {
                assert(s[s.len() - 1] == f[i]);
            }
        }
        assert forall|i: int| 0 <= i < s.len() && pred(#[trigger] s[i]) implies f.contains(
            s[i],
        ) by {
            if i < t.len() {
                assert(t[i] == s[i]);
                assert(g.contains(t[i]));
                let j = choose|j: int| 0 <= j < g.len() && g[j] == s[i];
                assert(f[j] == s[i]);
            } else {
                assert(f[f.len() - 1] == s[i]);
            }
        }
    }
}

/// A prompt that nobody has answered for more than three minutes ends its
/// connection, and no other connection is closed.
pub proof fn law_unanswered_prompts_end(e: &Engine, now: u64, acts: Vec<Action>, k: u64)
    requires
        call_ensures(Engine::expire_pairings, (e, now), acts),
        e.wf(),
        e.conns@.contains_key(k),
    ensures
        acts@.contains(Action::Close { device: e.conns@[k].device }) <==> (!e.conns@[k].authorised
            && (e.conns@[k].prompted_at matches Some(t) && now >= t && now - t > 180_000_000_000)),
{
    let m = e.conns@;
    let ks = choose|ks: Seq<u64>| #[trigger]
        table::keys_of(m, ks) && peers::told_overdue(m, peers::overdue_keys(m, ks, now), acts@);
    let pred = |x: u64| peers::overdue(m[x], now);
    let late = peers::overdue_keys(m, ks, now);
    lemma_filtered(ks, pred);
    assert(ks.contains(k));
    let close = Action::Close { device: m[k].device };
    if pred(k) {
        let j = choose|j: int| 0 <= j < ks.len() && ks[j] == k;
        assert(pred(ks[j]));
        assert(late.contains(ks[j]));
        let i = choose|i: int| 0 <= i < late.len() && late[i] == k;
        assert(acts@[2 * i] == close);
    } else if acts@.contains(close) {
        let i = choose|i: int| 0 <= i < acts@.len() && acts@[i] == close;
        let h = i / 2;
        assert(0 <= h < late.len());
        assert(peers::given_up(acts@[2 * h], acts@[2 * h + 1], m[late[h]].device));
        assert(i == 2 * h || i == 2 * h + 1);
        assert(pred(late[h]) && ks.contains(late[h]));
        assert(m.contains_key(late[h]));
        assert(engine::dk(m[late[h]].device) == late[h]);
    }
}

/// Every connection is sent a keepalive, and nothing else is done.
pub proof fn law_every_connection_is_kept_alive(e: &Engine, acts: Vec<Action>, k: u64, i: int)
    requires
        call_ensures(Engine::ping_all, (e,), acts),
        e.conns@.contains_key(k),
        0 <= i < acts@.len(),
    ensures
        acts@.contains(Action::Send { to: e.conns@[k].device, msg: Message::Ping }),
        acts@[i] matches Action::Send { msg: Message::Ping, .. },
{
    let m = e.conns@;
    let ks = choose|ks: Seq<u64>| #[trigger] table::keys_of(m, ks) && peers::pinged(m, ks, acts@);
    assert(ks.contains(k));
    let j = choose|j: int| 0 <= j < ks.len() && ks[j] == k;
    assert(acts@[j] == (Action::Send { to: m[k].device, msg: Message::Ping }));
    assert(acts@[i] == (Action::Send { to: m[ks[i]].device, msg: Message::Ping }));
}

/// When a connection ends, it leaves the table and the others stay. The files
/// that were coming from the device are dropped and no others; each is reported
/// with an error and its partial data is removed. The files on their way to it
/// are given up and no others. The user is told why.
pub proof fn law_end_of_a_connection(
    e: &mut Engine,
    device: DeviceId,
    reason: String,
    acts: Vec<Action>,
    other: DeviceId,
    k: u128,
)
    requires
        call_ensures(Engine::end_connection, (e, device, reason), acts),
        old(e).wf(),
        other != device,
    ensures
        !final(e).conns@.contains_key(engine::dk(device)),
        final(e).conns@.contains_key(engine::dk(other)) == old(e).conns@.contains_key(
            engine::dk(other),
        ),
        old(e).conns@.contains_key(engine::dk(other)) ==> final(e).conns@[engine::dk(other)]
            == old(e).conns@[engine::dk(other)],
        final(e).incoming@.contains_key(k) <==> old(e).incoming@.contains_key(k)
            && old(e).incoming@[k].from != device,
        final(e).incoming@.contains_key(k) ==> final(e).incoming@[k] == old(e).incoming@[k],
        final(e).outgoing@.contains_key(k) == old(e).outgoing@.contains_key(k),
        old(e).outgoing@.contains_key(k) ==> {
            let was = old(e).outgoing@[k];
            let is = final(e).outgoing@[k];
            &&& is.cancel == (was.cancel || was.to == device)
            &&& is.id == was.id && is.to == was.to && is.name == was.name && is.size == was.size
        },
        old(e).incoming@.contains_key(k) && old(e).incoming@[k].from == device ==> told_dropped(
            old(e).incoming@[k],
            acts@,
        ),
        acts@.len() > 0,
        acts@.last() matches Action::Emit(EngineEvent::Disconnected { device: d, reason: why })
            && d == device && why@ == reason@,
        final(e).trust == old(e).trust,
        final(e).peers == old(e).peers,
{
    if engine::dk(other) == engine::dk(device) {
        engine::lemma_dk_injective(other, device);
    }
    let m = old(e).incoming@;
    let ks = choose|ks: Seq<u128>| #[trigger]
        outgoing::lists(ks, outgoing::from_device(m, device)) && outgoing::ended(
            m,
            ks,
            "соединение закрыто"@,
            acts@.drop_last(),
        );
    if m.contains_key(k) && m[k].from == device {
        assert(outgoing::from_device(m, device).contains(k));
        assert forall|x: u128| #[trigger] ks.contains(x) implies m.contains_key(x) && engine::tk(
            m[x].id,
        ) == x by {
            assert(outgoing::from_device(m, device).contains(x));
        }
        lemma_dropped_are_told(m, ks, acts@.drop_last(), k);
        lemma_told_in(m[k], acts@.drop_last(), acts@, 0);
    }
}

/// The failure of a transfer is told, and its partial data, if there is any, is
/// removed.
pub open spec fn told_dropped(t: IncomingTransfer, acts: Seq<Action>) -> bool {
    &&& exists|i: int|
        0 <= i < acts.len() && (#[trigger] acts[i] matches Action::Emit(
            EngineEvent::TransferFinished {
                transfer,
                incoming: true,
                name,
                path: None,
                error: Some(_),
            },
        ) && transfer == t.id && name@ == t.name@)
    &&& t.part_path@.len() > 0 ==> exists|i: int|
        0 <= i < acts.len() && (#[trigger] acts[i] matches Action::RemovePart { path } && path@
            == t.part_path@)
}

/// What is told by some actions is told by a list that holds them.
pub proof fn lemma_told_in(t: IncomingTransfer, a: Seq<Action>, b: Seq<Action>, at: int)
    requires
        told_dropped(t, a),
        0 <= at,
        at + a.len() <= b.len(),
        forall|i: int| 0 <= i < a.len() ==> a[i] == #[trigger] b[i + at],
    ensures
        told_dropped(t, b),
{
    let i = choose|i: int|
        0 <= i < a.len() && (#[trigger] a[i] matches Action::Emit(
            EngineEvent::TransferFinished {
                transfer,
                incoming: true,
                name,
                path: None,
                error: Some(_),
            },
        ) && transfer == t.id && name@ == t.name@);
    assert(b[i + at] == a[i]);
    if t.part_path@.len() > 0 {
        let j = choose|j: int|
            0 <= j < a.len() && (#[trigger] a[j] matches Action::RemovePart { path } && path@
                == t.part_path@);
        assert(b[j + at] == a[j]);
    }
}

proof fn lemma_dropped_are_told(
    m: Map<u128, IncomingTransfer>,
    ks: Seq<u128>,
    acts: Seq<Action>,
    k: u128,
)
    requires
        outgoing::ended(m, ks, "соединение закрыто"@, acts),
        ks.contains(k),
        m.contains_key(k),
        forall|x: u128| #[trigger] ks.contains(x) ==> m.contains_key(x) && engine::tk(m[x].id) == x,
    ensures
        told_dropped(m[k], acts),
    decreases ks.len(),
{
    let last = ks.last();
    let n = acts.len() - outgoing::end_len(m[last]);
    let tail = acts.skip(n);
    assert(ks.contains(last));
    if k == last {
        if m[k].part_path@.len() > 0 {
            assert(acts[n] == tail[0]);
            assert(acts[n + 1] == tail[1]);
        } else {
            assert(acts[n] == tail[0]);
        }
    } else {
        let j = choose|j: int| 0 <= j < ks.len() && ks[j] == k;
        assert(ks.drop_last()[j] == k);
        assert forall|x: u128| #[trigger] ks.drop_last().contains(x) implies m.contains_key(x)
            && engine::tk(m[x].id) == x by {
            let y = choose|y: int| 0 <= y < ks.drop_last().len() && ks.drop_last()[y] == x;
            assert(ks[y] == x);
            assert(ks.contains(x));
        }
        lemma_dropped_are_told(m, ks.drop_last(), acts.take(n), k);
        lemma_told_in(m[k], acts.take(n), acts, 0);
    }
}

} // verus!
