//! Pairing: both users approve, in either order, or nobody is paired.

use vstd::prelude::*;
use crate::engine;
use crate::engine::laws::talking;
use crate::engine::message;
use crate::engine::pairing;
use crate::engine::{Action, Conn, Engine, EngineEvent};
use crate::proto;
use crate::proto::Message;
use crate::security::fingerprint::DeviceId;
use crate::security::trust;
use crate::security::trust::TrustError;

verus! {

/// The pairing of a connection is complete: it is authorised, its key has a
/// record that is not blocked, under its name and with this time, and files of
/// a device that was not known are asked for. Both are written and told.
pub open spec fn is_paired(
    pre: Engine,
    post: Engine,
    c: Conn,
    device: DeviceId,
    wall: u64,
    acts: Seq<Action>,
) -> bool {
    &&& post.has_authorised(device)
    &&& post.conns@[engine::dk(device)].key == c.key
    &&& post.conns@[engine::dk(device)].prompted_at is None
    &&& post.trust.authorises(c.key@)
    &&& post.trust.spec_get(c.key@) matches Some(d) && {
        &&& !d.blocked
        &&& d.last_seen_ms == wall
        &&& talking::is_short_line_of(d.name@, c.name@, 64)
        &&& d.auto_accept_files == (pre.trust.spec_get(c.key@) matches Some(was)
            && was.auto_accept_files)
    }
    &&& acts.len() == 4
    &&& acts[0] matches Action::SaveTrust { report: true }
    &&& acts[1] matches Action::Emit(EngineEvent::PairingFinished { device: d, accepted: true })
        && d == device
    &&& acts[2] matches Action::Emit(EngineEvent::TrustChanged)
    &&& acts[3] matches Action::Emit(EngineEvent::Connected(info)) && info.device == device
        && info.paired && info.name@ == c.name@ && info.sas@ == c.sas@ && info.addr == c.addr
}

/// The trust store has room for a key.
pub open spec fn has_room(e: Engine, key: Seq<u8>) -> bool {
    key.len() == 32 && (e.trust.spec_get(key) is Some || e.trust.spec_devices().len() < 256)
}

/// The second approval completes a pairing; no record but that of the key
/// changes.
proof fn lemma_completes(
    pre: Engine,
    mid: Engine,
    post: Engine,
    device: DeviceId,
    wall: u64,
    acts: Seq<Action>,
    other: Seq<u8>,
)
    requires
        trust::in_order(pre.trust.spec_devices()),
        mid.trust == pre.trust,
        pre.conns@.contains_key(engine::dk(device)),
        mid.conns@.contains_key(engine::dk(device)),
        ({
            let c = pre.conns@[engine::dk(device)];
            let d = mid.conns@[engine::dk(device)];
            &&& !c.authorised
            &&& d == (Conn { local_ok: d.local_ok, remote_ok: d.remote_ok, ..c })
            &&& d.local_ok && d.remote_ok
            &&& has_room(pre, c.key@)
            &&& other != c.key@
        }),
        pairing::finalized(mid, post, device, wall, acts),
    ensures
        is_paired(pre, post, pre.conns@[engine::dk(device)], device, wall, acts),
        post.trust.spec_get(other) == pre.trust.spec_get(other),
{
    let c = mid.conns@[engine::dk(device)];
    let r = choose|r: Result<(), TrustError>| #[trigger]
        pairing::recorded(mid, post, device, wall, r, acts);
    assert(r is Ok);
    assert(r == Ok::<(), TrustError>(()));
    let a = pre.trust.spec_devices();
    let b = post.trust.spec_devices();
    trust::law_paired_device_is_authorised(a, b, c.key@, c.name@, wall);
    trust::lemma_paired_record(a, b, c.key@, c.name@, wall);
    trust::law_pairing_leaves_others(a, b, c.key@, c.name@, wall, r, other);
    talking::lemma_clamped_is_line(c.name@, 64);
}

/// The approval of the local user is passed on to the peer. If the remote user
/// has approved already the pairing is complete; if not, the approval is noted
/// and nobody is trusted yet.
pub proof fn law_local_approval(
    e: &mut Engine,
    device: DeviceId,
    wall: u64,
    acts: Vec<Action>,
    other: Seq<u8>,
)
    requires
        call_ensures(Engine::respond_pairing_at, (e, device, true, wall), acts),
        trust::in_order(old(e).trust.spec_devices()),
        old(e).conns@.contains_key(engine::dk(device)),
        !old(e).conns@[engine::dk(device)].authorised,
        other != old(e).conns@[engine::dk(device)].key@,
    ensures
        acts@.len() > 0,
        acts@[0] matches Action::Send { to, msg: Message::PairAccept } && to == device,
        old(e).conns@[engine::dk(device)].remote_ok && has_room(
            *old(e),
            old(e).conns@[engine::dk(device)].key@,
        ) ==> is_paired(
            *old(e),
            *final(e),
            old(e).conns@[engine::dk(device)],
            device,
            wall,
            acts@.skip(1),
        ) && final(e).trust.spec_get(other) == old(e).trust.spec_get(other),
        !old(e).conns@[engine::dk(device)].remote_ok ==> {
            &&& acts@.len() == 1
            &&& final(e).trust == old(e).trust
            &&& final(e).conns@[engine::dk(device)] == (Conn {
                local_ok: true,
                ..old(e).conns@[engine::dk(device)]
            })
            &&& final(e).conns@ == old(e).conns@.insert(
                engine::dk(device),
                final(e).conns@[engine::dk(device)],
            )
        },
{
    let mid = choose|mid: Engine| #[trigger]
        pairing::locally_approved(*old(e), mid, device) && pairing::finalized(
            mid,
            *final(e),
            device,
            wall,
            acts@.skip(1),
        );
    if old(e).conns@[engine::dk(device)].remote_ok && has_room(
        *old(e),
        old(e).conns@[engine::dk(device)].key@,
    ) {
        lemma_completes(*old(e), mid, *final(e), device, wall, acts@.skip(1), other);
    }
}

/// The approval of the local user at whatever time it is; see
/// [`law_local_approval`].
pub proof fn law_local_approval_now(
    e: &mut Engine,
    device: DeviceId,
    acts: Vec<Action>,
    other: Seq<u8>,
)
    requires
        call_ensures(Engine::respond_pairing, (e, device, true), acts),
        trust::in_order(old(e).trust.spec_devices()),
        old(e).conns@.contains_key(engine::dk(device)),
        !old(e).conns@[engine::dk(device)].authorised,
        other != old(e).conns@[engine::dk(device)].key@,
    ensures
        acts@.len() > 0,
        acts@[0] matches Action::Send { to, msg: Message::PairAccept } && to == device,
        old(e).conns@[engine::dk(device)].remote_ok && has_room(
            *old(e),
            old(e).conns@[engine::dk(device)].key@,
        ) ==> exists|wall: u64| #[trigger]
            is_paired(
                *old(e),
                *final(e),
                old(e).conns@[engine::dk(device)],
                device,
                wall,
                acts@.skip(1),
            ),
        !old(e).conns@[engine::dk(device)].remote_ok ==> acts@.len() == 1 && final(e).trust
            == old(e).trust && final(e).conns@[engine::dk(device)].local_ok 
            && !final(e).conns@[engine::dk(device)].authorised,
{
    let wall = choose|wall: u64| #[trigger]
        pairing::answered(*old(e), *final(e), device, true, wall, acts@);
    let mid = choose|mid: Engine| #[trigger]
        pairing::locally_approved(*old(e), mid, device) && pairing::finalized(
            mid,
            *final(e),
            device,
            wall,
            acts@.skip(1),
        );
    if old(e).conns@[engine::dk(device)].remote_ok && has_room(
        *old(e),
        old(e).conns@[engine::dk(device)].key@,
    ) {
        lemma_completes(*old(e), mid, *final(e), device, wall, acts@.skip(1), other);
    }
}

/// The approval of the remote user completes the pairing if the local user has
/// approved already; if not, it is noted and nobody is trusted yet.
pub proof fn law_remote_approval(
    e: &mut Engine,
    device: DeviceId,
    key: &[u8],
    now: u64,
    wall: u64,
    r: (Result<(), String>, Vec<Action>),
    other: Seq<u8>,
)
    requires
        call_ensures(Engine::on_message, (e, device, key, Message::PairAccept, now, wall), r),
        trust::in_order(old(e).trust.spec_devices()),
        old(e).conns@.contains_key(engine::dk(device)),
        !old(e).conns@[engine::dk(device)].authorised,
        other != old(e).conns@[engine::dk(device)].key@,
    ensures
        r.0 is Ok,
        old(e).conns@[engine::dk(device)].local_ok && has_room(
            *old(e),
            old(e).conns@[engine::dk(device)].key@,
        ) ==> is_paired(
            *old(e),
            *final(e),
            old(e).conns@[engine::dk(device)],
            device,
            wall,
            r.1@,
        ) && final(e).trust.spec_get(other) == old(e).trust.spec_get(other),
        !old(e).conns@[engine::dk(device)].local_ok ==> {
            &&& r.1@.len() == 0
            &&& final(e).trust == old(e).trust
            &&& final(e).conns@[engine::dk(device)] == (Conn {
                remote_ok: true,
                ..old(e).conns@[engine::dk(device)]
            })
            &&& final(e).conns@ == old(e).conns@.insert(
                engine::dk(device),
                final(e).conns@[engine::dk(device)],
            )
        },
{
    assert(Message::PairAccept.may_precede_pairing());
    let mid = choose|mid: Engine| #[trigger]
        message::remotely_approved(*old(e), mid, device) && pairing::finalized(
            mid,
            *final(e),
            device,
            wall,
            r.1@,
        ) && *final(e) == (Engine { conns: final(e).conns, trust: final(e).trust, ..mid });
    if old(e).conns@[engine::dk(device)].local_ok && has_room(
        *old(e),
        old(e).conns@[engine::dk(device)].key@,
    ) {
        lemma_completes(*old(e), mid, *final(e), device, wall, r.1@, other);
    }
}

/// A refusal of the local user is passed on, closes the connection and trusts
/// nobody; an answer that comes after the connection ended changes nothing.
pub proof fn law_local_refusal(
    e: &mut Engine,
    device: DeviceId,
    accept: bool,
    wall: u64,
    acts: Vec<Action>,
)
    requires
        call_ensures(Engine::respond_pairing_at, (e, device, accept, wall), acts),
        !accept || !old(e).conns@.contains_key(engine::dk(device)),
    ensures
        final(e).trust == old(e).trust,
        final(e).conns@ == old(e).conns@,
        old(e).conns@.contains_key(engine::dk(device)) ==> {
            &&& acts@.len() == 3
            &&& acts@[0] matches Action::Send { to, msg: Message::PairReject { reason } } && to
                == device && reason@ == "отклонено пользователем"@
            &&& acts@[1] matches Action::Close { device: d } && d == device
            &&& acts@[2] matches Action::Emit(
                EngineEvent::PairingFinished { device: d, accepted: false },
            ) && d == device
        },
        !old(e).conns@.contains_key(engine::dk(device)) ==> acts@.len() == 1
            && (acts@[0] matches Action::Emit(EngineEvent::Error(t)) && t@
            == "Соединение уже закрыто"@),
{
}

/// A refusal of the remote user ends the connection with its reason, is told to
/// the user, and trusts nobody.
pub proof fn law_remote_refusal(
    e: &mut Engine,
    device: DeviceId,
    key: &[u8],
    reason: String,
    now: u64,
    wall: u64,
    r: (Result<(), String>, Vec<Action>),
)
    requires
        call_ensures(
            Engine::on_message,
            (e, device, key, Message::PairReject { reason }, now, wall),
            r,
        ),
    ensures
        *final(e) == *old(e),
        r.0 matches Err(why) && exists|short: Seq<char>| #[trigger]
            talking::is_short_line_of(short, reason@, 80) && why@ == "сопряжение отклонено: "@
                + short,
        r.1@.len() == 1,
        r.1@[0] matches Action::Emit(EngineEvent::PairingFinished { device: d, accepted: false })
            && d == device,
{
    talking::lemma_clamped_is_line(reason@, 80);
}

/// A request to pair prompts the user, with the code and the fingerprint of the
/// connection, its address and the name that the peer gives itself, and starts
/// the time anew. It approves nothing. A peer that is paired already causes no
/// prompt.
pub proof fn law_request_prompts_the_user(
    e: &mut Engine,
    device: DeviceId,
    key: &[u8],
    p: proto::PairRequest,
    now: u64,
    wall: u64,
    r: (Result<(), String>, Vec<Action>),
)
    requires
        call_ensures(Engine::on_message, (e, device, key, Message::PairRequest(p), now, wall), r),
        old(e).conns@.contains_key(engine::dk(device)),
    ensures
        r.0 is Ok,
        final(e).trust == old(e).trust,
        final(e).conns@ == old(e).conns@.insert(
            engine::dk(device),
            final(e).conns@[engine::dk(device)],
        ),
        ({
            let a = old(e).conns@[engine::dk(device)];
            let b = final(e).conns@[engine::dk(device)];
            &&& b == (Conn { name: b.name, prompted_at: Some(now), ..a })
            &&& talking::is_short_line_of(b.name@, p.name@, 64)
        }),
        old(e).conns@[engine::dk(device)].authorised ==> r.1@.len() == 0,
        !old(e).conns@[engine::dk(device)].authorised ==> r.1@.len() == 1
            && (r.1@[0] matches Action::Emit(
            EngineEvent::PairingRequired {
                device: d,
                name,
                fingerprint,
                sas,
                addr,
                remote_initiated: true,
            },
        ) && {
            let c = old(e).conns@[engine::dk(device)];
            &&& d == device
            &&& sas@ == c.sas@
            &&& fingerprint@ == c.fingerprint@
            &&& addr == c.addr
            &&& talking::is_short_line_of(name@, p.name@, 64)
        }),
{
    talking::lemma_clamped_is_line(p.name@, 64);
}

} // verus!
