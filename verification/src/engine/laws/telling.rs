//! What the user and the other side are told, and who can be reached.

use vstd::prelude::*;
use crate::engine;
use crate::engine::files;
use crate::engine::laws::managing;
use crate::engine::{Action, Engine, EngineEvent, OutSignal};
use crate::net::limit;
use crate::proto::{Message, TransferId};
use crate::security::fingerprint::DeviceId;
use crate::security::trust;
use crate::util::IpAddr;

verus! {

/// The key of a device is the one that it goes by.
pub proof fn law_key_of_a_device(
    e: &Engine,
    device: DeviceId,
    key: Seq<u8>,
    r: Option<Vec<u8>>,
)
    requires
        call_ensures(Engine::key_for, (e, device), r),
        trust::in_order(e.trust.spec_devices()),
        managing::goes_by(*e, device, key),
    ensures
        r matches Some(k) && k@ == key,
{
    managing::lemma_goes_by(
        *e,
        device,
        key,
        match r {
            Some(k) => Some(k@),
            None => None,
        },
    );
}

/// Something can be sent to a device exactly if it is connected and authorised;
/// otherwise the user learns which of these it is not.
pub proof fn law_who_can_be_written_to(e: &Engine, device: DeviceId, r: Result<(), String>)
    requires
        call_ensures(Engine::send_to, (e, device), r),
    ensures
        r is Ok <==> e.conns@.contains_key(engine::dk(device))
            && e.conns@[engine::dk(device)].authorised,
        !e.conns@.contains_key(engine::dk(device)) ==> (r matches Err(why) && why@
            == "Нет соединения с устройством"@),
        e.conns@.contains_key(engine::dk(device)) && !e.conns@[engine::dk(device)].authorised ==> (r
            matches Err(why) && why@ == "Устройство ещё не сопряжено"@),
{
}

/// A signal is passed on for a file that is being sent, unchanged, and for no
/// other one.
pub proof fn law_signals_are_passed_on(
    e: &Engine,
    id: TransferId,
    signal: OutSignal,
    acts: Vec<Action>,
)
    requires
        call_ensures(Engine::signal_outgoing, (e, id, signal), acts),
    ensures
        e.outgoing@.contains_key(engine::tk(id)) ==> acts@ == seq![
            Action::Signal { transfer: id, signal },
        ],
        !e.outgoing@.contains_key(engine::tk(id)) ==> acts@.len() == 0,
{
    if e.outgoing@.contains_key(engine::tk(id)) {
        assert(acts@ =~= seq![Action::Signal { transfer: id, signal }]);
    }
}

/// A transfer that is given up is gone, its file is removed if it has one, and
/// the user learns why; the others go on.
pub proof fn law_given_up_transfer(
    e: &mut Engine,
    id: TransferId,
    reason: &str,
    acts: Vec<Action>,
    other: u128,
)
    requires
        call_ensures(Engine::abort_incoming, (e, id, reason), acts),
        other != engine::tk(id),
    ensures
        !final(e).incoming@.contains_key(engine::tk(id)),
        final(e).incoming@.contains_key(other) == old(e).incoming@.contains_key(other),
        old(e).incoming@.contains_key(other) ==> final(e).incoming@[other]
            == old(e).incoming@[other],
        final(e).outgoing == old(e).outgoing,
        final(e).conns == old(e).conns,
        final(e).trust == old(e).trust,
        old(e).incoming@.contains_key(engine::tk(id)) ==> acts@.len() > 0 && (acts@.last()
            matches Action::Emit(EngineEvent::TransferFinished {
            transfer,
            incoming,
            name,
            path,
            error: Some(why),
        }) && transfer == id && incoming && name@ == old(e).incoming@[engine::tk(id)].name@
            && path is None && why@ == reason@),
        old(e).incoming@.contains_key(engine::tk(id)) && old(e).incoming@[engine::tk(
            id,
        )].part_path@.len() > 0 ==> (acts@[0] matches Action::RemovePart { path } && path@ == old(e).incoming@[engine::tk(id)].part_path@),
        !old(e).incoming@.contains_key(engine::tk(id)) ==> acts@.len() == 0,
{
}

/// Refusals and errors about a file go to its device, for its identifier and
/// with the reason.
pub proof fn law_what_the_sender_is_told(
    device: DeviceId,
    id: TransferId,
    reason: &str,
    rejected: Action,
    failed: Action,
)
    requires
        call_ensures(files::reject_file, (device, id, reason), rejected),
        call_ensures(files::error_file, (device, id, reason), failed),
    ensures
        rejected matches Action::Send { to, msg: Message::FileReject(v) } && to == device && v.id
            == id && v.reason@ == reason@,
        failed matches Action::Send { to, msg: Message::FileError(v) } && to == device && v.id
            == id && v.reason@ == reason@,
{
}

/// What did not work is told with the address and the cause.
pub proof fn law_what_did_not_work_is_told(
    shown: &str,
    why: &str,
    unreachable: Action,
    failed: Action,
    unsaved: Action,
)
    requires
        call_ensures(Engine::unreachable, (shown, why), unreachable),
        call_ensures(Engine::handshake_failed, (shown, why), failed),
        call_ensures(Engine::trust_not_saved, (why,), unsaved),
    ensures
        unreachable matches Action::Emit(EngineEvent::Error(m)) && m@
            == "Не удалось подключиться к "@ + shown@ + ": "@ + why@,
        failed matches Action::Emit(EngineEvent::Error(m)) && m@ == "Рукопожатие с "@ + shown@
            + " не удалось: "@ + why@,
        unsaved matches Action::Emit(EngineEvent::Error(m)) && m@
            == "Не удалось записать список доверия: "@ + why@,
{
}

/// Lists of things to do are put one behind the other.
pub proof fn law_actions_are_put_together(acts: &mut Vec<Action>, more: Vec<Action>)
    requires
        call_ensures(files::extend, (acts, more), ()),
    ensures
        final(acts)@ == old(acts)@ + more@,
{
}

/// A handshake can be counted unless the address has used up its count within
/// the last minute.
pub proof fn law_handshakes_can_be_counted(e: &Engine, ip: IpAddr, now: u64, r: bool, i: int)
    requires
        call_ensures(Engine::can_count, (e, ip, now), r),
        limit::distinct(e.guard.seen.entries@),
        0 <= i < e.guard.seen.entries@.len(),
        e.guard.seen.entries@[i].ip == ip,
    ensures
        r <==> now - e.guard.seen.entries@[i].since >= 60_000_000_000
            || e.guard.seen.entries@[i].count < u32::MAX,
{
    limit::lemma_index_unique(e.guard.seen.entries@, i);
}

} // verus!
