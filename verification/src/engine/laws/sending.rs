//! Outgoing files: the offer, the answer, the chunks, and how the sending ends.

use vstd::prelude::*;
use crate::engine;
use crate::engine::laws::talking;
use crate::engine::sender::{FileSender, Next};
use crate::engine::{Action, Engine, EngineEvent, OutSignal};
use crate::proto::{Message, TransferId};
use crate::security::fingerprint::DeviceId;

verus! {

/// The sending is over and failed: no further step, the transfer is out of the
/// table and all others are as they were, and the user is told with an error
/// and no path. The last action tells it; before it there is at most a word to
/// the receiver that the transfer failed.
pub open spec fn ended_with(
    pre: Engine,
    post: Engine,
    s: FileSender,
    why: Seq<char>,
    next: Next,
    acts: Seq<Action>,
) -> bool {
    &&& next is Stop
    &&& !post.outgoing@.contains_key(engine::tk(s.id))
    &&& others_stay(pre, post, s.id)
    &&& 1 <= acts.len() <= 2
    &&& acts.last() matches Action::Emit(
        EngineEvent::TransferFinished {
            transfer,
            incoming: false,
            name,
            path: None,
            error: Some(e),
        },
    ) && transfer == s.id && name@ == s.name@ && e@ == why
    &&& acts.len() == 2 ==> (acts[0] matches Action::Send { to, msg: Message::FileError(f) } && to
        == s.to && f.id == s.id && f.reason@ == why)
}

/// No other outgoing transfer is touched, and nothing but those.
pub open spec fn others_stay(pre: Engine, post: Engine, id: TransferId) -> bool {
    &&& forall|k: u128|
        k != engine::tk(id) ==> (#[trigger] post.outgoing@.contains_key(k)
            == pre.outgoing@.contains_key(k)) && (pre.outgoing@.contains_key(k)
            ==> post.outgoing@[k] == pre.outgoing@[k])
    &&& post.incoming == pre.incoming
    &&& post.conns == pre.conns
    &&& post.trust == pre.trust
    &&& post.config == pre.config
    &&& post.peers == pre.peers
}

/// A file that the user sends is offered under its name, size and hash, to the
/// device that it is for and no other, and is listed as on its way.
pub proof fn law_file_is_offered_as_it_is(
    e: &mut Engine,
    to: DeviceId,
    name: Option<String>,
    path: String,
    sha: String,
    size: u64,
    id: TransferId,
    r: (FileSender, Next, Vec<Action>),
)
    requires
        call_ensures(Engine::send_file_as, (e, to, name, path, Ok((sha, size)), id), r),
        old(e).has_authorised(to),
        size <= 1_099_511_627_776,
    ensures
        r.0.id == id,
        r.0.to == to,
        r.0.path@ == path@,
        r.0.size == size,
        r.0.sha256@ == sha@,
        r.0.offset == 0,
        r.0.chunk_no == 0,
        match name {
            Some(n) => r.0.name@ == if n@.len() <= 255 {
                n@
            } else {
                n@.take(255)
            },
            None => r.0.name@ == "file"@,
        },
        r.1 matches Next::Offer(Message::FileOffer(o)) && o.id == id && o.name@ == r.0.name@
            && o.size == size && o.sha256@ == sha@ && o.mime@.len() == 0,
        r.2@.len() == 0,
        final(e).outgoing@.contains_key(engine::tk(id)),
        ({
            let o = final(e).outgoing@[engine::tk(id)];
            o.id == id && o.to == to && o.name@ == r.0.name@ && o.size == size && !o.cancel
        }),
        others_stay(*old(e), *final(e), id),
{
}

/// A file that could not be read, is too large, or is for a device that cannot
/// be written to, is not offered, and the user is told why.
pub proof fn law_file_that_cannot_be_sent(
    e: &mut Engine,
    to: DeviceId,
    name: Option<String>,
    path: String,
    hashed: Result<(String, u64), String>,
    id: TransferId,
    r: (FileSender, Next, Vec<Action>),
)
    requires
        call_ensures(Engine::send_file_as, (e, to, name, path, hashed, id), r),
        !(old(e).has_authorised(to) && (hashed matches Ok((_, size)) && size
            <= 1_099_511_627_776)),
    ensures
        match hashed {
            Err(why) => {
                &&& r.1 is Stop
                &&& final(e).outgoing@ == old(e).outgoing@
                &&& r.2@.len() == 1
                &&& r.2@[0] matches Action::Emit(EngineEvent::Error(t)) && t@
                    == "Не удалось прочитать "@ + r.0.name@ + ": "@ + why@
            },
            Ok((_, size)) => ended_with(
                *old(e),
                *final(e),
                r.0,
                if size > 1_099_511_627_776 {
                    "файл слишком большой"@
                } else if !old(e).conns@.contains_key(engine::dk(to)) {
                    "Нет соединения с устройством"@
                } else {
                    "Устройство ещё не сопряжено"@
                },
                r.1,
                r.2@,
            ),
        },
{
}

/// A file that is sent under an identifier of its own is offered in the same
/// way.
pub proof fn law_file_is_offered_under_a_fresh_identifier(
    e: &mut Engine,
    to: DeviceId,
    name: Option<String>,
    path: String,
    sha: String,
    size: u64,
    r: (FileSender, Next, Vec<Action>),
)
    requires
        call_ensures(Engine::send_file, (e, to, name, path, Ok((sha, size))), r),
        old(e).has_authorised(to),
        size <= 1_099_511_627_776,
    ensures
        r.0.to == to,
        r.0.path@ == path@,
        r.0.size == size,
        r.0.sha256@ == sha@,
        r.0.offset == 0,
        r.1 matches Next::Offer(Message::FileOffer(o)) && o.id == r.0.id && o.name@ == r.0.name@
            && o.size == size && o.sha256@ == sha@,
        r.2@.len() == 0,
        final(e).outgoing@.contains_key(engine::tk(r.0.id)),
        final(e).outgoing@[engine::tk(r.0.id)].to == to,
        others_stay(*old(e), *final(e), r.0.id),
{
}

/// After the offer the answer is awaited; an offer that could not be sent ends
/// the sending.
pub proof fn law_offer_is_followed_by_the_answer(
    e: &mut Engine,
    s: &FileSender,
    outcome: Result<(), String>,
    r: (Next, Vec<Action>),
)
    requires
        call_ensures(Engine::offer_sent, (e, s, outcome), r),
    ensures
        match outcome {
            Ok(_) => r.0 is Await && r.1@.len() == 0 && *final(e) == *old(e),
            Err(why) => ended_with(
                *old(e),
                *final(e),
                *s,
                "Ошибка отправки: "@ + why@,
                r.0,
                r.1@,
            ),
        },
{
}

/// Only an acceptance goes on to the file; a refusal, a cancellation and no
/// answer end the sending, each with its reason.
pub proof fn law_only_acceptance_goes_on(
    e: &mut Engine,
    s: &FileSender,
    answer: Option<OutSignal>,
    r: (Next, Vec<Action>),
)
    requires
        call_ensures(Engine::offer_answered, (e, s, answer), r),
    ensures
        r.0 is Open || r.0 is Stop,
        r.0 is Open <==> (answer matches Some(OutSignal::Accept)),
        r.0 is Open ==> r.1@.len() == 0 && *final(e) == *old(e),
        match answer {
            Some(OutSignal::Accept) => true,
            Some(OutSignal::Reject(why)) => ended_with(
                *old(e),
                *final(e),
                *s,
                "получатель отказался: "@ + why@,
                r.0,
                r.1@,
            ),
            Some(OutSignal::Cancel) => ended_with(
                *old(e),
                *final(e),
                *s,
                "отменено"@,
                r.0,
                r.1@,
            ),
            None => ended_with(
                *old(e),
                *final(e),
                *s,
                "получатель не ответил"@,
                r.0,
                r.1@,
            ),
        },
{
}

/// An opened file goes on, and one that cannot be opened ends the sending.
pub proof fn law_opened_file_goes_on(
    e: &mut Engine,
    s: &FileSender,
    opened: Result<(), String>,
    r: (Next, Vec<Action>),
)
    requires
        call_ensures(Engine::file_opened, (e, s, opened), r),
    ensures
        match opened {
            Ok(_) => r.0 is Poll && r.1@.len() == 0 && *final(e) == *old(e),
            Err(why) => ended_with(*old(e), *final(e), *s, why@, r.0, r.1@),
        },
{
}

/// A look for signals that finds a cancellation or a refusal ends the sending,
/// and so does a mark that it was cancelled here. Without either the sending
/// goes on unchanged.
pub proof fn law_cancelled_sending_stops(
    e: &mut Engine,
    s: &FileSender,
    signal: Option<OutSignal>,
    r: (Next, Vec<Action>),
)
    requires
        call_ensures(Engine::polled, (e, s, signal), r),
    ensures
        ({
            let marked = old(e).outgoing@.contains_key(engine::tk(s.id)) && old(
                e,
            ).outgoing@[engine::tk(s.id)].cancel;
            let stopped = signal matches Some(x) && !(x is Accept);
            &&& marked || stopped ==> exists|why: Seq<char>| #[trigger]
                ended_with(*old(e), *final(e), *s, why, r.0, r.1@) && why == if marked {
                    "отменено"@
                } else {
                    "прервано получателем"@
                }
            &&& marked || stopped ==> r.1@.len() == 1
            &&& !marked && !stopped ==> r.0 is Read && r.1@.len() == 0 && *final(e) == *old(e)
        }),
{
    let marked = old(e).outgoing@.contains_key(engine::tk(s.id)) && old(e).outgoing@[engine::tk(
        s.id,
    )].cancel;
    let stopped = signal matches Some(x) && !(x is Accept);
    if marked {
        assert(ended_with(*old(e), *final(e), *s, "отменено"@, r.0, r.1@));
    } else if stopped {
        assert(ended_with(*old(e), *final(e), *s, "прервано получателем"@, r.0, r.1@));
    }
}

/// What is read of a file is what its next chunk carries, at the place up to
/// which the file was sent, and nothing else is done.
pub proof fn law_chunk_carries_what_was_read(
    e: &mut Engine,
    s: &FileSender,
    data: Vec<u8>,
    r: (Next, Vec<Action>),
)
    requires
        call_ensures(Engine::chunk_read, (e, s, Ok(data)), r),
        data@.len() > 0,
    ensures
        old(e).has_authorised(s.to) ==> (r.0 matches Next::Chunk(
            Message::FileChunk { id, offset, data: d },
        ) && id == s.id && offset == s.offset && d@ == data@) && r.1@.len() == 0 && *final(e)
            == *old(e),
        !old(e).has_authorised(s.to) ==> ended_with(
            *old(e),
            *final(e),
            *s,
            if !old(e).conns@.contains_key(engine::dk(s.to)) {
                "Нет соединения с устройством"@
            } else {
                "Устройство ещё не сопряжено"@
            },
            r.0,
            r.1@,
        ),
{
}

/// At the end of the file the receiver gets the last word, with the hash that
/// was offered, and the user is told of success, but only if every byte was
/// sent. A file that ended early, or could not be read on, ends the sending with
/// an error.
pub proof fn law_success_only_when_all_was_sent(
    e: &mut Engine,
    s: &FileSender,
    got: Result<Vec<u8>, String>,
    r: (Next, Vec<Action>),
)
    requires
        call_ensures(Engine::chunk_read, (e, s, got), r),
        got matches Ok(data) ==> data@.len() == 0,
    ensures
        r.0 is Stop,
        !final(e).outgoing@.contains_key(engine::tk(s.id)),
        others_stay(*old(e), *final(e), s.id),
        got is Ok && s.offset == s.size ==> {
            &&& r.1@.len() == if old(e).has_authorised(s.to) {
                2int
            } else {
                1int
            }
            &&& r.1@.last() matches Action::Emit(
                EngineEvent::TransferFinished {
                    transfer,
                    incoming: false,
                    name,
                    path: Some(p),
                    error: None,
                },
            ) && transfer == s.id && name@ == s.name@ && p@ == s.path@
            &&& old(e).has_authorised(s.to) ==> (r.1@[0] matches Action::Send {
                to,
                msg: Message::FileDone(d),
            } && to == s.to && d.id == s.id && d.sha256@ == s.sha256@)
        },
        !(got is Ok && s.offset == s.size) ==> exists|why: Seq<char>| #[trigger]
            ended_with(*old(e), *final(e), *s, why, r.0, r.1@) && (got matches Err(w) ==> why
                == w@) && (got is Ok ==> why == "файл изменился во время отправки"@),
{
    if !(got is Ok && s.offset == s.size) {
        let why = match got {
            Err(w) => w@,
            Ok(_) => "файл изменился во время отправки"@,
        };
        if old(e).has_authorised(s.to) {
            assert(r.1@.skip(1)[0] == r.1@[1]);
        }
        assert(ended_with(*old(e), *final(e), *s, why, r.0, r.1@));
    } else if old(e).has_authorised(s.to) {
        assert(r.1@.skip(1)[0] == r.1@[1]);
    }
}

/// A chunk that was sent counts, byte for byte, and the next look for signals
/// follows; progress is told truthfully, after every sixty-fourth chunk. A chunk
/// that could not be sent ends the sending.
pub proof fn law_sent_chunks_are_counted(
    e: &mut Engine,
    s: &mut FileSender,
    n: usize,
    outcome: Result<(), String>,
    r: (Next, Vec<Action>),
)
    requires
        call_ensures(Engine::chunk_sent, (e, s, n, outcome), r),
        old(s).offset + n <= u64::MAX,
        old(s).chunk_no < u64::MAX,
    ensures
        final(s).id == old(s).id,
        final(s).to == old(s).to,
        final(s).name == old(s).name,
        final(s).path == old(s).path,
        final(s).size == old(s).size,
        final(s).sha256 == old(s).sha256,
        match outcome {
            Ok(_) => {
                &&& final(s).offset == old(s).offset + n
                &&& final(s).chunk_no == old(s).chunk_no + 1
                &&& r.0 is Poll
                &&& *final(e) == *old(e)
                &&& r.1@.len() == if (old(s).chunk_no + 1) % 64 == 0 {
                    1int
                } else {
                    0int
                }
                &&& r.1@.len() == 1 ==> (r.1@[0] matches Action::Emit(
                    EngineEvent::TransferProgress { transfer, done, total, incoming: false },
                ) && transfer == old(s).id && done == old(s).offset + n && total == old(s).size)
            },
            Err(why) => ended_with(
                *old(e),
                *final(e),
                *old(s),
                "Ошибка отправки: "@ + why@,
                r.0,
                r.1@,
            ),
        },
{
}

/// What the receiver says of a file on its way is passed on to its sender: an
/// acceptance as one, a refusal with its reason, a cancellation or a failure as
/// the end. Of a file that is not on its way nothing is passed on.
pub proof fn law_answers_reach_the_sender(
    e: &mut Engine,
    device: DeviceId,
    key: &[u8],
    msg: Message,
    id: TransferId,
    now: u64,
    wall: u64,
    r: (Result<(), String>, Vec<Action>),
)
    requires
        call_ensures(Engine::on_message, (e, device, key, msg, now, wall), r),
        old(e).has_authorised(device),
        match msg {
            Message::FileAccept { id: i } => i == id,
            Message::FileReject(f) => f.id == id,
            Message::FileCancel(f) => f.id == id,
            Message::FileError(f) => f.id == id,
            _ => false,
        },
    ensures
        r.0 is Ok,
        final(e).outgoing == old(e).outgoing,
        final(e).conns == old(e).conns,
        final(e).trust == old(e).trust,
        old(e).outgoing@.contains_key(engine::tk(id)) ==> r.1@.len() > 0 && (r.1@[0] matches Action::Signal {
            transfer,
            signal,
        } && transfer == id && match msg {
            Message::FileAccept { .. } => signal is Accept,
            Message::FileReject(f) => signal matches OutSignal::Reject(why)
                && talking::is_short_line_of(why@, f.reason@, 120),
            _ => signal is Cancel,
        }),
        !old(e).outgoing@.contains_key(engine::tk(id)) ==> forall|i: int|
            0 <= i < r.1@.len() ==> !(#[trigger] r.1@[i] matches Action::Signal { .. }),
        msg is FileAccept || msg is FileReject ==> *final(e) == *old(e) && r.1@.len() <= 1,
{
    if let Message::FileReject(f) = msg {
        talking::lemma_clamped_is_line(f.reason@, 120);
    }
    if msg is FileCancel || msg is FileError {
        let n: int = if old(e).outgoing@.contains_key(engine::tk(id)) {
            1
        } else {
            0
        };
        if n == 1 {
            assert(r.1@.take(1)[0] == r.1@[0]);
        } else {
            assert(r.1@.skip(0) =~= r.1@);
        }
    }
}

/// A file on its way that the user cancels is marked, stays listed until its
/// sender notices, and its receiver is told if it may be written to. Another
/// file is not touched.
pub proof fn law_cancelling_marks_the_file(
    e: &mut Engine,
    id: TransferId,
    acts: Vec<Action>,
    other: u128,
)
    requires
        call_ensures(Engine::cancel_transfer, (e, id), acts),
        old(e).outgoing@.contains_key(engine::tk(id)),
        other != engine::tk(id),
    ensures
        final(e).outgoing@.contains_key(engine::tk(id)),
        ({
            let a = old(e).outgoing@[engine::tk(id)];
            let b = final(e).outgoing@[engine::tk(id)];
            b.cancel && b.id == a.id && b.to == a.to && b.name == a.name && b.size == a.size
        }),
        final(e).outgoing@.contains_key(other) == old(e).outgoing@.contains_key(other),
        old(e).outgoing@.contains_key(other) ==> final(e).outgoing@[other]
            == old(e).outgoing@[other],
        final(e).incoming@ == old(e).incoming@,
        old(e).has_authorised(old(e).outgoing@[engine::tk(id)].to) ==> acts@.len() == 1
            && (acts@[0] matches Action::Send { to, msg: Message::FileCancel(f) } && to == old(
            e,
        ).outgoing@[engine::tk(id)].to && f.id == id && f.reason@ == "отменено отправителем"@),
        !old(e).has_authorised(old(e).outgoing@[engine::tk(id)].to) ==> acts@.len() == 0,
{
}

/// A file that the user cancelled sends no further chunk: the next look for
/// signals ends it, whatever it finds.
pub proof fn law_cancelled_file_is_not_sent_on(
    e: &mut Engine,
    id: TransferId,
    told: Vec<Action>,
    f: &mut Engine,
    s: &FileSender,
    signal: Option<OutSignal>,
    r: (Next, Vec<Action>),
)
    requires
        call_ensures(Engine::cancel_transfer, (e, id), told),
        old(e).outgoing@.contains_key(engine::tk(id)),
        *old(f) == *final(e),
        s.id == id,
        call_ensures(Engine::polled, (f, s, signal), r),
    ensures
        r.0 is Stop,
        !final(f).outgoing@.contains_key(engine::tk(id)),
        r.1@.len() == 1,
        r.1@[0] matches Action::Emit(
            EngineEvent::TransferFinished { transfer, incoming: false, path: None, error: Some(_), .. },
        ) && transfer == id,
{
}

/// A connection that ends stops the files on their way to its device at their
/// next look for signals.
pub proof fn law_files_stop_when_the_connection_ends(
    e: &mut Engine,
    device: DeviceId,
    reason: String,
    told: Vec<Action>,
    f: &mut Engine,
    s: &FileSender,
    signal: Option<OutSignal>,
    r: (Next, Vec<Action>),
)
    requires
        call_ensures(Engine::end_connection, (e, device, reason), told),
        old(e).outgoing@.contains_key(engine::tk(s.id)),
        old(e).outgoing@[engine::tk(s.id)].to == device,
        *old(f) == *final(e),
        call_ensures(Engine::polled, (f, s, signal), r),
    ensures
        r.0 is Stop,
        !final(f).outgoing@.contains_key(engine::tk(s.id)),
        r.1@.len() == 1,
        r.1@[0] matches Action::Emit(
            EngineEvent::TransferFinished { transfer, incoming: false, path: None, error: Some(_), .. },
        ) && transfer == s.id,
{
}

} // verus!
