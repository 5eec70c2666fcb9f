//! What the user decides: trust, settings, whom to dial, and the end.

use vstd::prelude::*;
use crate::config::{Config, Paths};
use crate::engine;
use crate::engine::commands;
use crate::engine::laws::receiving;
use crate::engine::peers;
use crate::engine::table;
use crate::engine::{Action, Engine, EngineEvent};
use crate::proto::{FileOffer, Message};
use crate::security::fingerprint;
use crate::security::fingerprint::DeviceId;
use crate::security::keystore::Identity;
use crate::security::trust;
use crate::security::trust::TrustStore;
use crate::text;
use crate::util;
use crate::util::IpAddr;

verus! {

/// The key that a device goes by: the one that it proved, if it is connected;
/// else the one that it announced; else the only trusted one that it may have.
pub open spec fn goes_by(e: Engine, device: DeviceId, key: Seq<u8>) -> bool {
    let k = engine::dk(device);
    if e.conns@.contains_key(k) {
        e.conns@[k].key@ == key
    } else if e.peers@.contains_key(k) {
        e.peers@[k].info.public_key@ == key
    } else {
        &&& key.len() == 32
        &&& e.trust.spec_get(key) is Some
        &&& fingerprint::device_bytes(key) == device.0@
        &&& forall|i: int|
            0 <= i < e.trust.spec_devices().len() ==> ((
            #[trigger] e.trust.spec_devices()[i]).spec_key() matches Some(other) ==> (
            fingerprint::device_bytes(other) == device.0@ ==> other == key))
    }
}

pub proof fn lemma_goes_by(e: Engine, device: DeviceId, key: Seq<u8>, found: Option<Seq<u8>>)
    requires
        goes_by(e, device, key),
        trust::in_order(e.trust.spec_devices()),
        commands::is_key_of(e, device, found),
    ensures
        found == Some(key),
{
    let k = engine::dk(device);
    if !e.conns@.contains_key(k) && !e.peers@.contains_key(k) {
        let ds = e.trust.spec_devices();
        trust::lemma_lookup(ds, key);
        let d = e.trust.spec_get(key)->0;
        let j = choose|j: int| 0 <= j < ds.len() && ds[j] == d;
        assert(ds[j].spec_key() == Some(key));
        match found {
            Some(bytes) => {
                let i = choose|i: int| #[trigger]
                    e.trust.first_of(device, i) && ds[i].spec_key() == Some(bytes);
                assert(ds[i].spec_key() == Some(bytes));
            },
            None => {},
        }
    }
}

/// The switch for files without asking does as it is told, on as well as off:
/// the record of the device has the new value and is otherwise as it was; no
/// other record changes; the list is written and shown anew.
pub proof fn law_auto_accept_does_as_told(
    e: &mut Engine,
    device: DeviceId,
    on: bool,
    acts: Vec<Action>,
    key: Seq<u8>,
    other: Seq<u8>,
)
    requires
        call_ensures(Engine::set_auto_accept, (e, device, on), acts),
        trust::in_order(old(e).trust.spec_devices()),
        goes_by(*old(e), device, key),
        other != key,
    ensures
        match old(e).trust.spec_get(key) {
            Some(a) => final(e).trust.spec_get(key) matches Some(b) && b.auto_accept_files == on
                && b.blocked == a.blocked && b.name == a.name && b.public_key == a.public_key
                && b.added_at_ms == a.added_at_ms && b.last_seen_ms == a.last_seen_ms,
            None => final(e).trust.spec_devices() == old(e).trust.spec_devices(),
        },
        final(e).trust.spec_get(other) == old(e).trust.spec_get(other),
        trust::in_order(final(e).trust.spec_devices()),
        final(e).conns == old(e).conns,
        final(e).incoming == old(e).incoming,
        final(e).outgoing == old(e).outgoing,
        final(e).config == old(e).config,
        acts@.len() == 2,
        acts@[0] matches Action::SaveTrust { .. },
        acts@[1] matches Action::Emit(EngineEvent::TrustChanged),
{
    let step = commands::auto_set(on);
    let found = choose|found: Option<Seq<u8>>| #[trigger]
        commands::is_key_of(*old(e), device, found) && commands::marked(
            *old(e),
            *final(e),
            device,
            found,
            step,
            false,
            acts@,
        );
    lemma_goes_by(*old(e), device, key, found);
    trust::lemma_changed(
        old(e).trust.spec_devices(),
        final(e).trust.spec_devices(),
        key,
        step,
        other,
    );
    if let Some(a) = old(e).trust.spec_get(key) {
        assert(step(a, final(e).trust.spec_get(key)->0));
    }
}

/// After the switch was turned off, an offer of the device is shown to the user
/// and no file is created before the answer; after it was turned on, the file
/// is created at once.
pub proof fn law_auto_accept_decides_about_offers(
    e: &mut Engine,
    device: DeviceId,
    on: bool,
    told: Vec<Action>,
    f: &mut Engine,
    key: &[u8],
    o: FileOffer,
    now: u64,
    wall: u64,
    r: (Result<(), String>, Vec<Action>),
    raw: &str,
    safe: String,
)
    requires
        call_ensures(Engine::set_auto_accept, (e, device, on), told),
        trust::in_order(old(e).trust.spec_devices()),
        goes_by(*old(e), device, key@),
        old(e).trust.spec_get(key@) is Some,
        old(e).has_authorised(device),
        *old(f) == *final(e),
        call_ensures(Engine::on_message, (f, device, key, Message::FileOffer(o), now, wall), r),
        raw@ == o.name@,
        call_ensures(util::sanitize_filename, (raw,), safe),
        old(f).config.max_file_size == 0 || o.size <= old(f).config.max_file_size,
        old(f).incoming@.len() < 16,
        !old(f).incoming@.contains_key(engine::tk(o.id)),
    ensures
        r.1@.len() == 1,
        on ==> (r.1@[0] matches Action::OpenPart { device: d, transfer, .. } && d == device
            && transfer == o.id),
        !on ==> (r.1@[0] matches Action::Emit(EngineEvent::OfferReceived { from, transfer, .. })
            && from == device && transfer == o.id),
        final(f).incoming@[engine::tk(o.id)].approved == on,
        !final(f).incoming@[engine::tk(o.id)].accepted,
{
    let other = key@.push(0u8);
    assert(other.len() != key@.len());
    law_auto_accept_does_as_told(e, device, on, told, key@, other);
    receiving::law_offers_are_shown_or_approved(f, device, key, o, now, wall, r, raw, safe);
}

/// Blocking does as it is told, and so does letting in again: a device with a
/// record is authorised exactly if it is not blocked, and its record is
/// otherwise as it was; no other record changes. A device that is blocked loses
/// its connection; one that is let in again does not.
pub proof fn law_blocking_does_as_told(
    e: &mut Engine,
    device: DeviceId,
    blocked: bool,
    acts: Vec<Action>,
    key: Seq<u8>,
    other: Seq<u8>,
)
    requires
        call_ensures(Engine::set_blocked, (e, device, blocked), acts),
        trust::in_order(old(e).trust.spec_devices()),
        goes_by(*old(e), device, key),
        other != key,
    ensures
        match old(e).trust.spec_get(key) {
            Some(a) => final(e).trust.authorises(key) == !blocked && (final(e).trust.spec_get(
                key,
            ) matches Some(b) && b.blocked == blocked && b.auto_accept_files == a.auto_accept_files
                && b.name == a.name && b.public_key == a.public_key && b.added_at_ms
                == a.added_at_ms && b.last_seen_ms == a.last_seen_ms),
            None => final(e).trust.spec_devices() == old(e).trust.spec_devices(),
        },
        final(e).trust.spec_get(other) == old(e).trust.spec_get(other),
        acts@.len() >= 2,
        acts@[0] matches Action::SaveTrust { .. },
        acts@.last() matches Action::Emit(EngineEvent::TrustChanged),
        acts@.contains(Action::Close { device }) <==> blocked && old(e).conns@.contains_key(
            engine::dk(device),
        ),
{
    let step = commands::block_set(blocked);
    let found = choose|found: Option<Seq<u8>>| #[trigger]
        commands::is_key_of(*old(e), device, found) && commands::marked(
            *old(e),
            *final(e),
            device,
            found,
            step,
            blocked,
            acts@,
        );
    lemma_goes_by(*old(e), device, key, found);
    trust::lemma_changed(
        old(e).trust.spec_devices(),
        final(e).trust.spec_devices(),
        key,
        step,
        other,
    );
    if let Some(a) = old(e).trust.spec_get(key) {
        assert(step(a, final(e).trust.spec_get(key)->0));
    }
    if blocked {
        lemma_middle_close(*old(e), device, acts@);
    }
}

proof fn lemma_middle_close(e: Engine, device: DeviceId, acts: Seq<Action>)
    requires
        acts.len() >= 2,
        acts[0] == (Action::SaveTrust { report: false }),
        acts.last() == Action::Emit(EngineEvent::TrustChanged),
        commands::told_close(e, device, acts.subrange(1, acts.len() - 1)),
    ensures
        acts.contains(Action::Close { device }) <==> e.conns@.contains_key(engine::dk(device)),
{
    let middle = acts.subrange(1, acts.len() - 1);
    if e.conns@.contains_key(engine::dk(device)) {
        assert(acts[1] == middle[0]);
    } else {
        assert(acts.len() == 2);
    }
}

/// A device that is forgotten has no record any more and is not trusted; its
/// connection, if there is one, is closed. No other record changes.
pub proof fn law_forgetting_takes_the_trust_away(
    e: &mut Engine,
    device: DeviceId,
    acts: Vec<Action>,
    key: Seq<u8>,
    other: Seq<u8>,
)
    requires
        call_ensures(Engine::forget, (e, device), acts),
        trust::in_order(old(e).trust.spec_devices()),
        goes_by(*old(e), device, key),
        other != key,
    ensures
        final(e).trust.spec_get(key) is None,
        !final(e).trust.authorises(key),
        final(e).trust.spec_get(other) == old(e).trust.spec_get(other),
        acts@.len() >= 2,
        acts@[0] matches Action::SaveTrust { .. },
        acts@.last() matches Action::Emit(EngineEvent::TrustChanged),
        acts@.contains(Action::Close { device }) <==> old(e).conns@.contains_key(
            engine::dk(device),
        ),
{
    let found = choose|found: Option<Seq<u8>>| #[trigger]
        commands::is_key_of(*old(e), device, found) && commands::forgotten(
            *old(e),
            *final(e),
            device,
            found,
            acts@,
        );
    lemma_goes_by(*old(e), device, key, found);
    commands::law_forgotten_device_is_not_trusted(*old(e), *final(e), device, key, acts@, other);
    lemma_middle_close(*old(e), device, acts@);
}

/// A device that is not known at all cannot be forgotten, and nobody else is
/// forgotten in its place.
pub proof fn law_unknown_device_changes_no_trust(
    e: &mut Engine,
    device: DeviceId,
    acts: Vec<Action>,
)
    requires
        call_ensures(Engine::forget, (e, device), acts),
        !old(e).conns@.contains_key(engine::dk(device)),
        !old(e).peers@.contains_key(engine::dk(device)),
        forall|i: int|
            0 <= i < old(e).trust.spec_devices().len() ==> !((
            #[trigger] old(e).trust.spec_devices()[i]).spec_key() matches Some(k)
                && fingerprint::device_bytes(k) == device.0@),
    ensures
        final(e).trust == old(e).trust,
        acts@.len() == 0,
{
    let found = choose|found: Option<Seq<u8>>| #[trigger]
        commands::is_key_of(*old(e), device, found) && commands::forgotten(
            *old(e),
            *final(e),
            device,
            found,
            acts@,
        );
    if let Some(bytes) = found {
        let ds = old(e).trust.spec_devices();
        let i = choose|i: int| #[trigger]
            old(e).trust.first_of(device, i) && ds[i].spec_key() == Some(bytes);
        assert(ds[i].spec_key() == Some(bytes));
    }
}

/// Changed settings are taken over as they are and written; what is announced
/// follows them, in name and in whether anything is announced at all, and
/// nothing else of it changes. Trust, connections and transfers stay.
pub proof fn law_settings_are_taken_over(e: &mut Engine, new: Config, acts: Vec<Action>)
    requires
        call_ensures(Engine::update_config, (e, new), acts),
    ensures
        final(e).config == new,
        acts@.len() == 1,
        acts@[0] is SaveConfig,
        final(e).trust == old(e).trust,
        final(e).conns == old(e).conns,
        final(e).incoming == old(e).incoming,
        final(e).outgoing == old(e).outgoing,
        final(e).bound_port == old(e).bound_port,
        final(e).discovery is Some <==> old(e).discovery is Some,
        old(e).discovery matches Some(a) ==> (final(e).discovery matches Some(b) && {
            &&& b.spec_running() == a.spec_running()
            &&& b.spec_info().name == new.device_name
            &&& b.spec_info().announce == new.discovery_enabled
            &&& b.spec_info().public_key == a.spec_info().public_key
            &&& b.spec_info().port == a.spec_info().port
            &&& b.spec_info().platform == a.spec_info().platform
        }),
{
}

/// The port that the listener got is the one that is used from then on, and the
/// user is told if it is another one than wanted, or if connections are not
/// accepted.
pub proof fn law_listener_is_noted(e: &mut Engine, port: u16, acts: Vec<Action>, used: u16, after: &Engine)
    requires
        call_ensures(Engine::listening, (e, port), acts),
        *after == *final(e),
        call_ensures(Engine::port, (after,), used),
    ensures
        used == port,
        final(e).config == old(e).config,
        final(e).trust == old(e).trust,
        acts@.len() == (if port != old(e).config.tcp_port {
            1int
        } else {
            0int
        }) + if old(e).config.accept_incoming {
            0int
        } else {
            1int
        },
        forall|i: int|
            0 <= i < acts@.len() ==> #[trigger] acts@[i] matches Action::Emit(
                EngineEvent::Notice(_),
            ),
        port != old(e).config.tcp_port ==> (acts@[0] matches Action::Emit(EngineEvent::Notice(t))
            && t@ == "Порт "@ + text::decimal(old(e).config.tcp_port as nat) + " занят, слушаем "@
            + text::decimal(port as nat)),
        !old(e).config.accept_incoming ==> (acts@.last() matches Action::Emit(
            EngineEvent::Notice(t),
        ) && t@ == "Входящие подключения отключены"@),
{
}

/// What is announced is the key, the name, the port and the platform of this
/// device, and whether it wants to be found. Without a socket the user is told
/// and nothing is announced anew.
pub proof fn law_own_announcement_is_true(
    e: &mut Engine,
    opened: Result<(), String>,
    acts: Vec<Action>,
)
    requires
        call_ensures(Engine::discovering, (e, opened), acts),
    ensures
        final(e).config == old(e).config,
        final(e).trust == old(e).trust,
        final(e).conns == old(e).conns,
        opened is Ok ==> acts@.len() == 0 && (final(e).discovery matches Some(d) && {
            &&& d.spec_running()
            &&& d.spec_info().public_key@ == old(e).identity.spec_public()
            &&& d.spec_info().name@ == old(e).config.device_name@
            &&& d.spec_info().port == old(e).bound_port
            &&& d.spec_info().platform@ == old(e).platform@
            &&& d.spec_info().announce == old(e).config.discovery_enabled
        }),
        opened matches Err(why) ==> final(e).discovery == old(e).discovery && acts@.len() == 1
            && (acts@[0] matches Action::Emit(EngineEvent::Notice(t)) && t@
            == "Обнаружение в сети недоступно ("@ + why@ + "); подключайтесь по адресу вручную"@),
{
}

/// An address is dialled unless it lies outside the local network while only
/// that is wanted, or there are sixteen connections; the user is told which.
pub proof fn law_which_addresses_are_dialled(
    e: &Engine,
    ip: IpAddr,
    shown: &str,
    r: Result<(), Action>,
    local: bool,
)
    requires
        call_ensures(Engine::dial, (e, ip, shown), r),
        call_ensures(util::is_lan_addr, (ip,), local),
    ensures
        r is Ok <==> (local || !e.config.lan_only) && e.conns@.len() < 16,
        e.config.lan_only && !local ==> (r matches Err(Action::Emit(EngineEvent::Error(t))) && t@
            == "Адрес "@ + shown@ + " вне локальной сети (включите доступ вне LAN в настройках)"@),
        (local || !e.config.lan_only) && e.conns@.len() >= 16 ==> (r matches Err(
            Action::Emit(EngineEvent::Error(t)),
        ) && t@ == "Слишком много подключений"@),
{
}

/// Closing the connection to a device closes that one, if it is there.
pub proof fn law_disconnecting_closes_one(e: &Engine, device: DeviceId, acts: Vec<Action>)
    requires
        call_ensures(Engine::disconnect, (e, device), acts),
    ensures
        acts@.len() == if e.conns@.contains_key(engine::dk(device)) {
            1int
        } else {
            0int
        },
        acts@.len() == 1 ==> (acts@[0] matches Action::Close { device: d } && d == device),
{
}

/// At the end announcements stop and every connection is closed.
pub proof fn law_shutdown_closes_everything(e: &mut Engine, acts: Vec<Action>, k: u64)
    requires
        call_ensures(Engine::shutdown, (e,), acts),
    ensures
        !final(e).running,
        final(e).discovery matches Some(d) ==> !d.spec_running(),
        old(e).conns@.contains_key(k) ==> acts@.contains(
            Action::Close { device: old(e).conns@[k].device },
        ),
        forall|i: int| 0 <= i < acts@.len() ==> #[trigger] acts@[i] is Close,
        final(e).trust == old(e).trust,
        final(e).config == old(e).config,
{
    let m = old(e).conns@;
    let ks = choose|ks: Seq<u64>| #[trigger]
        table::keys_of(m, ks) && commands::closes(m, ks, acts@);
    if m.contains_key(k) {
        assert(ks.contains(k));
        let j = choose|j: int| 0 <= j < ks.len() && ks[j] == k;
        assert(acts@[j] == (Action::Close { device: m[k].device }));
    }
    assert forall|i: int| 0 <= i < acts@.len() implies #[trigger] acts@[i] is Close by {
        assert(acts@[i] == (Action::Close { device: m[ks[i]].device }));
    }
}

/// A new engine takes what it is given and knows nobody else: no connection, no
/// peer, no transfer.
pub proof fn law_new_engine_knows_what_it_was_given(
    identity: Identity,
    config: Config,
    paths: Paths,
    store: TrustStore,
    platform: String,
    e: Engine,
)
    requires
        call_ensures(Engine::start, (identity, config, paths, store, platform), e),
    ensures
        e.identity == identity,
        e.config == config,
        e.paths == paths,
        e.trust == store,
        e.platform == platform,
        e.running,
        forall|k: u64| !#[trigger] e.conns@.contains_key(k),
        forall|k: u64| !#[trigger] e.peers@.contains_key(k),
        forall|k: u128| !#[trigger] e.incoming@.contains_key(k),
        forall|k: u128| !#[trigger] e.outgoing@.contains_key(k),
{
}

/// Housekeeping drops the silent peers, and no others; it never touches trust,
/// connections or transfers; and a keepalive is due once thirty seconds have
/// passed.
pub proof fn law_housekeeping(
    e: &mut Engine,
    now: u64,
    last: u64,
    r: (u64, Vec<Action>),
    k: u64,
)
    requires
        call_ensures(Engine::housekeep, (e, now, last), r),
    ensures
        r.0 == if now >= last && now - last >= 30_000_000_000 {
            now
        } else {
            last
        },
        final(e).peers@.contains_key(k) <==> old(e).peers@.contains_key(k) && (now
            < old(e).peers@[k].last_seen || now - old(e).peers@[k].last_seen < 15_000_000_000),
        final(e).peers@.contains_key(k) ==> final(e).peers@[k] == old(e).peers@[k],
        final(e).trust == old(e).trust,
        final(e).conns == old(e).conns,
        final(e).incoming == old(e).incoming,
        final(e).outgoing == old(e).outgoing,
        old(e).conns@.contains_key(k) && now >= last && now - last >= 30_000_000_000
            ==> r.1@.contains(Action::Send { to: old(e).conns@[k].device, msg: Message::Ping }),
{
    let ps = old(e).peers@;
    let m = old(e).conns@;
    let (ks, cs, a, b, c) = choose|
        ks: Seq<u64>,
        cs: Seq<u64>,
        a: Seq<Action>,
        b: Seq<Action>,
        c: Seq<Action>,
    |
        #![trigger table::keys_of(ps, ks), table::keys_of(m, cs), a + b + c]
        {
            &&& r.1@ == a + b + c
            &&& table::keys_of(ps, ks)
            &&& table::keys_of(m, cs)
            &&& peers::told_lost(ps, peers::silent_keys(ps, ks, now), a)
            &&& peers::told_overdue(m, peers::overdue_keys(m, cs, now), b)
            &&& if crate::net::limit::spec_elapsed(now, last) >= engine::KEEPALIVE {
                peers::pinged(m, cs, c)
            } else {
                c.len() == 0
            }
        };
    if m.contains_key(k) && now >= last && now - last >= 30_000_000_000 {
        assert(cs.contains(k));
        let j = choose|j: int| 0 <= j < cs.len() && cs[j] == k;
        assert(c[j] == (Action::Send { to: m[k].device, msg: Message::Ping }));
        assert(r.1@[a.len() + b.len() + j] == c[j]);
    }
}

} // verus!
