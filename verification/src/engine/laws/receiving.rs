//! Incoming files: who is asked, what is written, what is published and what
//! every failure leaves behind.

use vstd::prelude::*;
use crate::codec;
use crate::crypto;
use crate::engine;
use crate::engine::files;
use crate::engine::laws::connecting;
use crate::engine::transfer;
use crate::engine::transfer::{IncomingTransfer, Opened};
use crate::engine::{Action, Engine, EngineEvent};
use crate::proto::{FileOffer, IdReason, Message, TransferId};
use crate::security::fingerprint::DeviceId;
use crate::text;
use crate::util;
use crate::util::UniquePath;

verus! {

/// No other incoming transfer is touched, and nothing but those.
pub open spec fn others_stay(pre: Engine, post: Engine, id: TransferId) -> bool {
    &&& forall|k: u128|
        k != engine::tk(id) ==> (#[trigger] post.incoming@.contains_key(k)
            == pre.incoming@.contains_key(k)) && (pre.incoming@.contains_key(k)
            ==> post.incoming@[k] == pre.incoming@[k])
    &&& post.outgoing == pre.outgoing
    &&& post.conns == pre.conns
    &&& post.trust == pre.trust
    &&& post.config == pre.config
    &&& post.peers == pre.peers
}

/// A transfer that was there is gone: it is out of the table, its failure is
/// told, and its partial data is removed. Nothing is published.
pub open spec fn is_dropped(pre: Engine, post: Engine, id: TransferId, acts: Seq<Action>) -> bool {
    &&& !post.incoming@.contains_key(engine::tk(id))
    &&& others_stay(pre, post, id)
    &&& connecting::told_dropped(pre.incoming@[engine::tk(id)], acts)
    &&& forall|i: int| 0 <= i < acts.len() ==> !(#[trigger] acts[i] is PublishPart)
    &&& forall|i: int| 0 <= i < acts.len() ==> !(#[trigger] acts[i] is WritePart)
}

/// The quarantine file of a transfer is to be created, at its place.
pub open spec fn asks_for_part(
    e: Engine,
    device: DeviceId,
    id: TransferId,
    acts: Seq<Action>,
) -> bool {
    let dir = if e.paths.root@.len() == 0 || e.paths.root@.last() == '/' {
        e.paths.root@ + "incoming"@
    } else {
        e.paths.root@.push('/') + "incoming"@
    };
    &&& acts.len() == 1
    &&& acts[0] matches Action::OpenPart { device: d, transfer, dir: at, path } && {
        &&& d == device
        &&& transfer == id
        &&& at@ == dir
        &&& path@ == dir.push('/') + (codec::hex(id.0@) + ".part"@)
    }
}

proof fn lemma_part_path(e: Engine, id: TransferId)
    ensures
        ({
            let dir = util::joined(e.paths.root@, "incoming"@);
            transfer::part_of(dir, id) == dir.push('/') + (codec::hex(id.0@) + ".part"@)
        }),
{
    reveal_strlit("incoming");
    let dir = util::joined(e.paths.root@, "incoming"@);
    assert(dir.last() == 'g');
}

/// What an offer of a paired device leads to. One that is too large by the
/// user's limit, one too many, and one under an identifier in use are turned
/// down and leave nothing. Any other is entered as it was offered, under a name
/// that is safe to use, and waits: only the files of a device for which the user
/// switched asking off are approved at once, all others are shown.
pub proof fn law_offers_are_shown_or_approved(
    e: &mut Engine,
    device: DeviceId,
    key: &[u8],
    o: FileOffer,
    now: u64,
    wall: u64,
    r: (Result<(), String>, Vec<Action>),
    raw: &str,
    safe: String,
)
    requires
        call_ensures(Engine::on_message, (e, device, key, Message::FileOffer(o), now, wall), r),
        old(e).has_authorised(device),
        raw@ == o.name@,
        call_ensures(util::sanitize_filename, (raw,), safe),
    ensures
        r.0 is Ok,
        others_stay(*old(e), *final(e), o.id),
        ({
            let limit = old(e).config.max_file_size;
            let k = engine::tk(o.id);
            let unasked = old(e).trust.spec_get(key@) matches Some(d) && d.auto_accept_files;
            if limit > 0 && o.size > limit {
                &&& final(e).incoming@ == old(e).incoming@
                &&& r.1@.len() == 2
                &&& r.1@[0] matches Action::Send { to, msg: Message::FileReject(f) } && to == device
                    && f.id == o.id && f.reason@ == "файл слишком большой"@
                &&& r.1@[1] is Emit
            } else if old(e).incoming@.len() >= 16 || old(e).incoming@.contains_key(k) {
                &&& final(e).incoming@ == old(e).incoming@
                &&& r.1@.len() == 1
                &&& r.1@[0] matches Action::Send { to, msg: Message::FileReject(f) } && to == device
                    && f.id == o.id && f.reason@ == "слишком много передач"@
            } else {
                let t = final(e).incoming@[k];
                &&& final(e).incoming@.contains_key(k)
                &&& t.id == o.id && t.from == device && t.from_key@ == key@
                &&& t.name@ == safe@ && t.size == o.size
                &&& t.expected_sha@ == text::lower_all(o.sha256@)
                &&& t.received == 0 && !t.accepted && t.contents().len() == 0
                &&& t.started == now && t.part_path@.len() == 0
                &&& t.approved == unasked
                &&& if unasked {
                    asks_for_part(*old(e), device, o.id, r.1@)
                } else {
                    &&& r.1@.len() == 1
                    &&& r.1@[0] matches Action::Emit(
                        EngineEvent::OfferReceived { from, transfer, name, size },
                    ) && from == device && transfer == o.id && name@ == safe@ && size == o.size
                }
            }
        }),
{
    lemma_part_path(*old(e), o.id);
}

/// The first approval asks for the quarantine file; another one, and an answer
/// to an offer that is not there, do nothing. A refusal drops the transfer and
/// tells the sender.
pub proof fn law_answer_to_an_offer(e: &mut Engine, id: TransferId, accept: bool, acts: Vec<Action>)
    requires
        call_ensures(Engine::respond_offer, (e, id, accept), acts),
        old(e).wf(),
    ensures
        others_stay(*old(e), *final(e), id),
        ({
            let k = engine::tk(id);
            let t = old(e).incoming@[k];
            if !old(e).incoming@.contains_key(k) {
                acts@.len() == 0 && final(e).incoming@ == old(e).incoming@
            } else if !accept {
                &&& is_dropped(*old(e), *final(e), id, acts@)
                &&& acts@.last() matches Action::Send { to, msg: Message::FileReject(f) } && to
                    == t.from && f.id == id
                &&& forall|i: int| 0 <= i < acts@.len() ==> !(#[trigger] acts@[i] is OpenPart)
            } else if t.approved {
                acts@.len() == 0 && final(e).incoming@ == old(e).incoming@
            } else {
                &&& asks_for_part(*old(e), t.from, id, acts@)
                &&& final(e).incoming@.contains_key(k)
                &&& final(e).incoming@[k] == (IncomingTransfer { approved: true, ..t })
            }
        }),
{
    lemma_part_path(*old(e), id);
    if old(e).incoming@.contains_key(engine::tk(id)) && !accept {
        let head = acts@.drop_last();
        engine::lemma_tk_injective(old(e).incoming@[engine::tk(id)].id, id);
        lemma_aborted_is_told(*old(e), *final(e), id, "отклонено пользователем"@, head);
        connecting::lemma_told_in(old(e).incoming@[engine::tk(id)], head, acts@, 0);
    }
}

proof fn lemma_aborted_is_told(
    pre: Engine,
    post: Engine,
    id: TransferId,
    reason: Seq<char>,
    acts: Seq<Action>,
)
    requires
        files::aborted(pre.incoming@, post.incoming@, id, reason, acts),
        pre.incoming@.contains_key(engine::tk(id)),
        pre.incoming@[engine::tk(id)].id == id,
    ensures
        connecting::told_dropped(pre.incoming@[engine::tk(id)], acts),
        acts.len() <= 2,
        forall|i: int|
            0 <= i < acts.len() ==> (#[trigger] acts[i] is RemovePart || acts[i] is Emit),
{
    let t = pre.incoming@[engine::tk(id)];
    if t.part_path@.len() > 0 {
        assert(acts[0] matches Action::RemovePart { path } && path@ == t.part_path@);
        assert(acts[1] is Emit);
    } else {
        assert(acts[0] is Emit);
    }
}

/// The sender is told to go on once the quarantine file is open, and not
/// before. If it cannot be opened the transfer is dropped and turned down.
pub proof fn law_sender_goes_on_once_the_file_is_open(
    e: &mut Engine,
    device: DeviceId,
    id: TransferId,
    opened: Opened,
    acts: Vec<Action>,
)
    requires
        call_ensures(Engine::part_opened, (e, device, id, opened), acts),
        old(e).wf(),
        old(e).incoming@.contains_key(engine::tk(id)),
        !old(e).incoming@[engine::tk(id)].accepted,
    ensures
        others_stay(*old(e), *final(e), id),
        opened is Ready ==> {
            let a = old(e).incoming@[engine::tk(id)];
            let b = final(e).incoming@[engine::tk(id)];
            &&& final(e).incoming@.contains_key(engine::tk(id))
            &&& b == (IncomingTransfer {
                accepted: true,
                approved: true,
                part_path: b.part_path,
                ..a
            })
            &&& b.part_path@.len() > 0
            &&& acts@.len() == 1
            &&& acts@[0] matches Action::Send { to, msg: Message::FileAccept { id: i } } && to
                == device && i == id
        },
        !(opened is Ready) ==> {
            &&& !final(e).incoming@.contains_key(engine::tk(id))
            &&& acts@.len() > 0
            &&& acts@.last() matches Action::Send { to, msg: Message::FileReject(f) } && to
                == device && f.id == id
            &&& forall|i: int|
                0 <= i < acts@.len() ==> !(#[trigger] acts@[i] matches Action::Send {
                    msg: Message::FileAccept { .. },
                    ..
                })
        },
{
    lemma_part_path(*old(e), id);
    if !(opened is Ready) {
        let k = engine::tk(id);
        let dir = util::joined(old(e).paths.root@, "incoming"@);
        let t = choose|t: IncomingTransfer|
            transfer::accept_step(old(e).incoming@[k], t, dir, opened) && #[trigger] files::aborted(
                old(e).incoming@.insert(k, t),
                final(e).incoming@,
                id,
                "не удалось создать файл"@,
                acts@.drop_last(),
            );
        assert(old(e).incoming@.insert(k, t).remove(k) =~= old(e).incoming@.remove(k));
        assert forall|i: int| 0 <= i < acts@.len() implies !(#[trigger] acts@[i] matches Action::Send {
            msg: Message::FileAccept { .. },
            ..
        }) by {
            if i < acts@.len() - 1 {
                assert(acts@.drop_last()[i] == acts@[i]);
            }
        }
    }
}

/// A chunk is written only if it comes from the device and the key that the
/// transfer belongs to, the transfer was accepted, the chunk follows the last
/// one, and it stays within the offered size; then exactly its bytes are
/// written, at its place. One that breaks these rules drops the transfer; one
/// from somebody else is ignored.
pub proof fn law_which_chunks_are_written(
    e: &mut Engine,
    device: DeviceId,
    key: &[u8],
    id: TransferId,
    offset: u64,
    data: Vec<u8>,
    now: u64,
    wall: u64,
    r: (Result<(), String>, Vec<Action>),
)
    requires
        call_ensures(
            Engine::on_message,
            (e, device, key, Message::FileChunk { id, offset, data }, now, wall),
            r,
        ),
        old(e).wf(),
        old(e).has_authorised(device),
    ensures
        r.0 is Ok,
        others_stay(*old(e), *final(e), id),
        ({
            let k = engine::tk(id);
            let t = old(e).incoming@[k];
            if !old(e).incoming@.contains_key(k) || t.from != device || t.from_key@ != key@ {
                r.1@.len() == 0 && final(e).incoming@ == old(e).incoming@
            } else if t.accepted && offset == t.received && t.received + data@.len() <= t.size {
                &&& final(e).incoming@ == old(e).incoming@
                &&& r.1@.len() == 1
                &&& r.1@[0] matches Action::WritePart { device: d, transfer, offset: at, data: bytes }
                    && d == device && transfer == id && at == offset && bytes@ == data@
            } else {
                &&& is_dropped(*old(e), *final(e), id, r.1@)
                &&& r.1@[0] matches Action::Send { to, msg: Message::FileError(f) } && to == device
                    && f.id == id
            }
        }),
{
    let k = engine::tk(id);
    if old(e).incoming@.contains_key(k) {
        let t = old(e).incoming@[k];
        if t.from == device && t.from_key@ == key@ {
            if let Some(why) = t.chunk_fault(offset, data@.len() as int) {
                let tail = r.1@.skip(1);
                engine::lemma_tk_injective(t.id, id);
                lemma_aborted_is_told(*old(e), *final(e), id, why.message(), tail);
                connecting::lemma_told_in(t, tail, r.1@, 1);
                lemma_harmless(tail, r.1@);
            }
        }
    }
}

proof fn lemma_harmless(tail: Seq<Action>, acts: Seq<Action>)
    requires
        acts.len() == tail.len() + 1,
        tail == acts.skip(1),
        acts[0] is Send,
        forall|i: int|
            0 <= i < tail.len() ==> (#[trigger] tail[i] is RemovePart || tail[i] is Emit),
    ensures
        forall|i: int| 0 <= i < acts.len() ==> !(#[trigger] acts[i] is PublishPart),
        forall|i: int| 0 <= i < acts.len() ==> !(#[trigger] acts[i] is WritePart),
{
    assert forall|i: int| 0 <= i < acts.len() implies !(#[trigger] acts[i] is PublishPart)
        && !(acts[i] is WritePart) by {
        if i > 0 {
            assert(acts[i] == tail[i - 1]);
        }
    }
}

/// A chunk that was written counts with all its bytes, which come to stand at
/// the end of what was received. The last one leads to the end of the transfer,
/// and no other does; progress is told truthfully. What could not be written
/// drops the transfer.
pub proof fn law_written_chunks_are_counted(
    e: &mut Engine,
    device: DeviceId,
    id: TransferId,
    offset: u64,
    data: &[u8],
    written: Result<(), String>,
    acts: Vec<Action>,
)
    requires
        call_ensures(Engine::chunk_written, (e, device, id, offset, data, written), acts),
        old(e).wf(),
        old(e).incoming@.contains_key(engine::tk(id)),
        ({
            let t = old(e).incoming@[engine::tk(id)];
            t.accepted && offset == t.received && t.received + data@.len() <= t.size
        }),
    ensures
        others_stay(*old(e), *final(e), id),
        written is Ok ==> {
            let a = old(e).incoming@[engine::tk(id)];
            let b = final(e).incoming@[engine::tk(id)];
            &&& final(e).incoming@.contains_key(engine::tk(id))
            &&& b.received == a.received + data@.len()
            &&& b.contents() == a.contents() + data@
            &&& b == (IncomingTransfer { received: b.received, hasher: b.hasher, ..a })
            &&& acts@.len() <= 1
            &&& b.received == b.size ==> acts@.len() == 1 && (acts@[0] matches Action::FlushPart {
                device: d,
                transfer,
            } && d == device && transfer == id)
            &&& b.received < b.size && acts@.len() == 1 ==> (acts@[0] matches Action::Emit(
                EngineEvent::TransferProgress { transfer, done, total, incoming: true },
            ) && transfer == id && done == b.received && total == b.size)
        },
        written is Err ==> is_dropped(*old(e), *final(e), id, acts@) && (acts@[0] matches Action::Send {
            to,
            msg: Message::FileError(f),
        } && to == device && f.id == id),
{
    let t = old(e).incoming@[engine::tk(id)];
    if let Err(why) = written {
        let tail = acts@.skip(1);
        engine::lemma_tk_injective(t.id, id);
        lemma_aborted_is_told(*old(e), *final(e), id, "io: "@ + why@, tail);
        connecting::lemma_told_in(t, tail, acts@, 1);
        lemma_harmless(tail, acts@);
    }
}

/// A file is published if and only if it was written out, every offered byte
/// was received, and the SHA-256 of what was received is the offered one; then
/// it goes to the download directory, under its safe name. In every other case
/// its data is removed, the sender is told, and so is the user. Either way the
/// transfer is over.
pub proof fn law_what_is_published(
    e: &mut Engine,
    device: DeviceId,
    id: TransferId,
    flushed: Result<(), String>,
    acts: Vec<Action>,
)
    requires
        call_ensures(Engine::finish_transfer, (e, device, id, flushed), acts),
        old(e).incoming@.contains_key(engine::tk(id)),
    ensures
        !final(e).incoming@.contains_key(engine::tk(id)),
        others_stay(*old(e), *final(e), id),
        ({
            let t = old(e).incoming@[engine::tk(id)];
            if flushed is Ok && t.received == t.size && codec::hex(crypto::sha256(t.contents()))
                == t.expected_sha@ {
                &&& acts@.len() == 1
                &&& acts@[0] matches Action::PublishPart { device: d, transfer, part, place } && {
                    &&& d == device
                    &&& transfer == id
                    &&& part@ == t.part_path@
                    &&& place.dir@ == old(e).config.download_dir@
                    &&& place.name@ == t.name@
                    &&& place.tries == 0
                    &&& !place.free
                }
            } else {
                &&& acts@.len() == 3
                &&& acts@[0] matches Action::RemovePart { path } && path@ == t.part_path@
                &&& acts@[1] matches Action::Send { to, msg: Message::FileError(f) } && to == device
                    && f.id == id
                &&& acts@[2] matches Action::Emit(
                    EngineEvent::TransferFinished {
                        transfer,
                        incoming: true,
                        name,
                        path: None,
                        error: Some(_),
                    },
                ) && transfer == id && name@ == t.name@
            }
        }),
{
}

/// The user is told where a published file lies; if it could not be moved its
/// data is removed and both sides are told why.
pub proof fn law_published_file_is_reported(
    e: &Engine,
    device: DeviceId,
    id: TransferId,
    part: String,
    place: UniquePath,
    outcome: Result<(), String>,
    acts: Vec<Action>,
    at: String,
)
    requires
        call_ensures(Engine::published, (e, device, id, part, place, outcome), acts),
        call_ensures(UniquePath::path, (&place,), at),
    ensures
        match outcome {
            Ok(_) => acts@.len() == 1 && (acts@[0] matches Action::Emit(
                EngineEvent::TransferFinished {
                    transfer,
                    incoming: true,
                    name,
                    path: Some(p),
                    error: None,
                },
            ) && transfer == id && name@ == place.name@ && p@ == at@),
            Err(why) => {
                &&& acts@.len() == 3
                &&& acts@[0] matches Action::RemovePart { path } && path@ == part@
                &&& acts@[1] matches Action::Send { to, msg: Message::FileError(f) } && to == device
                    && f.id == id && f.reason@ == "io: "@ + why@
                &&& acts@[2] matches Action::Emit(
                    EngineEvent::TransferFinished {
                        transfer,
                        incoming: true,
                        name,
                        path: None,
                        error: Some(w),
                    },
                ) && transfer == id && name@ == place.name@ && w@ == "io: "@ + why@
            },
        },
{
}

/// A file that is being received and that the user cancels is dropped, and its
/// sender is told.
pub proof fn law_cancelling_drops_an_incoming_file(
    e: &mut Engine,
    id: TransferId,
    acts: Vec<Action>,
)
    requires
        call_ensures(Engine::cancel_transfer, (e, id), acts),
        old(e).wf(),
        !old(e).outgoing@.contains_key(engine::tk(id)),
    ensures
        final(e).outgoing@ == old(e).outgoing@,
        !old(e).incoming@.contains_key(engine::tk(id)) ==> acts@.len() == 0
            && final(e).incoming@ == old(e).incoming@,
        old(e).incoming@.contains_key(engine::tk(id)) ==> {
            &&& final(e).incoming@ == old(e).incoming@.remove(engine::tk(id))
            &&& connecting::told_dropped(old(e).incoming@[engine::tk(id)], acts@)
            &&& acts@[0] matches Action::Send { to, msg: Message::FileCancel(f) } && to
                == old(e).incoming@[engine::tk(id)].from && f.id == id
        },
{
    if old(e).incoming@.contains_key(engine::tk(id)) {
        let t = old(e).incoming@[engine::tk(id)];
        let tail = acts@.skip(1);
        engine::lemma_tk_injective(t.id, id);
        lemma_aborted_is_told(*old(e), *final(e), id, "отменено"@, tail);
        connecting::lemma_told_in(t, tail, acts@, 1);
    }
}

/// A sender that cancels a file or reports its failure has it dropped here; so
/// does one that says it is done before every byte arrived. A last word on a
/// file that is complete, or not there, does nothing.
pub proof fn law_sender_can_end_its_file(
    e: &mut Engine,
    device: DeviceId,
    key: &[u8],
    msg: Message,
    id: TransferId,
    now: u64,
    wall: u64,
    r: (Result<(), String>, Vec<Action>),
)
    requires
        call_ensures(Engine::on_message, (e, device, key, msg, now, wall), r),
        old(e).wf(),
        old(e).has_authorised(device),
        match msg {
            Message::FileCancel(f) => f.id == id,
            Message::FileError(f) => f.id == id,
            Message::FileDone(d) => d.id == id,
            _ => false,
        },
    ensures
        r.0 is Ok,
        others_stay(*old(e), *final(e), id),
        ({
            let k = engine::tk(id);
            let t = old(e).incoming@[k];
            let ends = old(e).incoming@.contains_key(k) && (msg is FileDone ==> t.received
                != t.size);
            if ends {
                is_dropped(*old(e), *final(e), id, r.1@)
            } else {
                final(e).incoming@ == old(e).incoming@ && (msg is FileDone ==> r.1@.len() == 0)
            }
        }),
{
    let k = engine::tk(id);
    if old(e).incoming@.contains_key(k) {
        let t = old(e).incoming@[k];
        engine::lemma_tk_injective(t.id, id);
        match msg {
            Message::FileDone(d) => {
                if t.received != t.size {
                    lemma_aborted_is_told(
                        *old(e),
                        *final(e),
                        id,
                        "отправитель сообщил о завершении, но файл неполный"@,
                        r.1@,
                    );
                }
            },
            Message::FileCancel(f) => {
                lemma_stopped(*old(e), *final(e), f, r.1@);
            },
            Message::FileError(f) => {
                lemma_stopped(*old(e), *final(e), f, r.1@);
            },
            _ => {},
        }
    }
}

proof fn lemma_stopped(pre: Engine, post: Engine, f: IdReason, acts: Seq<Action>)
    requires
        crate::engine::message::stopped(pre, post, f, acts),
        pre.incoming@.contains_key(engine::tk(f.id)),
        pre.incoming@[engine::tk(f.id)].id == f.id,
    ensures
        is_dropped(pre, post, f.id, acts),
{
    let n: int = if pre.outgoing@.contains_key(engine::tk(f.id)) {
        1
    } else {
        0
    };
    let t = pre.incoming@[engine::tk(f.id)];
    let tail = acts.skip(n);
    lemma_aborted_is_told(pre, post, f.id, util::clamped(f.reason@, 120), tail);
    connecting::lemma_told_in(t, tail, acts, n);
    assert forall|i: int| 0 <= i < acts.len() implies !(#[trigger] acts[i] is PublishPart)
        && !(acts[i] is WritePart) by {
        if i >= n {
            assert(acts[i] == tail[i - n]);
        } else {
            assert(acts[i] == acts.take(n)[i]);
        }
    }
}

} // verus!
