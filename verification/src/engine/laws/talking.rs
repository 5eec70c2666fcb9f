//! Messages: what a peer may say before pairing, and how texts travel.

use vstd::prelude::*;
use crate::engine;
use crate::engine::commands;
use crate::engine::commands::TextStep;
use crate::engine::{Action, Engine, EngineEvent};
use crate::proto;
use crate::proto::{Message, TextMsg, TransferId};
use crate::security::fingerprint::DeviceId;
use crate::security::trust;
use crate::security::trust::TrustedDevice;
use crate::text;
use crate::util;

verus! {

/// The character as it is shown in one line.
pub open spec fn in_line(c: char) -> char {
    if c == '\r' || c == '\n' || c == '\0' {
        ' '
    } else {
        c
    }
}

/// A string is another one in one line, character by character.
pub open spec fn is_line_of(line: Seq<char>, s: Seq<char>) -> bool {
    line.len() == s.len() && forall|i: int|
        0 <= i < s.len() ==> #[trigger] line[i] == in_line(s[i])
}

/// A string is another one in one line if that has at most `max` characters;
/// otherwise it is the first `max` of them and the mark of a cut.
pub open spec fn is_short_line_of(line: Seq<char>, s: Seq<char>, max: int) -> bool {
    if s.len() <= max {
        is_line_of(line, s)
    } else {
        line.len() == max + 1 && line.last() == '…' && is_line_of(line.take(max), s.take(max))
    }
}

/// A text from a paired device is shown as it was sent, character by character
/// and with the time that its sender gave, as coming from that device, and it is
/// acknowledged. Nothing else happens.
pub proof fn law_received_text_is_shown_as_sent(
    e: &mut Engine,
    device: DeviceId,
    key: &[u8],
    t: TextMsg,
    now: u64,
    wall: u64,
    r: (Result<(), String>, Vec<Action>),
)
    requires
        call_ensures(Engine::on_message, (e, device, key, Message::Text(t), now, wall), r),
        old(e).has_authorised(device),
    ensures
        r.0 is Ok,
        *final(e) == *old(e),
        r.1@.len() == 2,
        r.1@[0] matches Action::Emit(EngineEvent::TextReceived { from, text, ts }) && {
            &&& from == device
            &&& ts == t.ts
            &&& is_short_line_of(text@, t.text@, 4096)
        },
        r.1@[1] matches Action::Send { to, msg: Message::TextAck { id } } && to == device && id
            == t.id,
{
    if let Action::Emit(EngineEvent::TextReceived { text, .. }) = r.1@[0] {
        if t.text@.len() > 4096 {
            assert(is_line_of(text@.take(4096), t.text@.take(4096)));
        }
    }
}

/// What one engine sends for a text is what the other one shows, to the last
/// character, as coming from the sender and with its time.
pub proof fn law_text_travels_unchanged(
    a: &Engine,
    to: DeviceId,
    raw: &str,
    id: TransferId,
    ts: u64,
    m: TextMsg,
    b: &mut Engine,
    from: DeviceId,
    key: &[u8],
    now: u64,
    wall: u64,
    r: (Result<(), String>, Vec<Action>),
)
    requires
        call_ensures(Engine::send_text_with, (a, to, raw, id, ts), TextStep::Send(m)),
        call_ensures(Engine::on_message, (b, from, key, Message::Text(m), now, wall), r),
        old(b).has_authorised(from),
    ensures
        m.ts == ts,
        m.id == id,
        r.0 is Ok,
        r.1@.len() == 2,
        r.1@[0] matches Action::Emit(EngineEvent::TextReceived { from: f, text, ts: t }) && f
            == from && t == ts && text@ == m.text@,
        proto::is_readable(Message::Text(m)),
{
    commands::law_sent_text_is_readable(raw@, m);
    lemma_sendable_is_one_line(raw@, ts);
    assert(util::clamped(m.text@, 4096) =~= m.text@);
}

proof fn lemma_sendable_is_one_line(raw: Seq<char>, ts: u64)
    ensures
        forall|i: int|
            0 <= i < commands::sendable_text(raw, ts).len() ==> util::one_line(
                #[trigger] commands::sendable_text(raw, ts)[i],
            ) == commands::sendable_text(raw, ts)[i],
{
    let plain = text::trim(raw);
    let flat = util::clamped(plain, plain.len());
    assert(forall|i: int| 0 <= i < flat.len() ==> util::one_line(#[trigger] flat[i]) == flat[i]);
    commands::lemma_room_within(flat, ts, flat.len());
}

/// A text is a run of characters between white space.
pub open spec fn is_core_of(raw: Seq<char>, from: int, to: int) -> bool {
    &&& 0 <= from <= to <= raw.len()
    &&& forall|i: int| 0 <= i < from ==> text::is_white(#[trigger] raw[i])
    &&& forall|i: int| to <= i < raw.len() ==> text::is_white(#[trigger] raw[i])
    &&& from < to ==> !text::is_white(raw[from]) && !text::is_white(raw[to - 1])
}

/// What is sent is what stands between the white space around a text, in one
/// line: all of it if a message can hold it, otherwise as much of its beginning
/// as one can hold, and the mark of a cut. Blank texts are not sent; a text to
/// a device that is not connected, or not paired, is refused with the reason.
/// `whole` is the message with all of the text, `longer` one with more of it
/// before the mark.
pub open spec fn is_right_step(
    e: Engine,
    to: DeviceId,
    raw: Seq<char>,
    r: TextStep,
    from: int,
    until: int,
    whole: TextMsg,
    longer: TextMsg,
) -> bool {
    &&& r is Nothing <==> from == until
    &&& from < until && !e.conns@.contains_key(engine::dk(to)) ==> (r matches TextStep::Refused(
        Action::Emit(EngineEvent::Error(why)),
    ) && why@ == "Нет соединения с устройством"@)
    &&& from < until && e.conns@.contains_key(engine::dk(to)) && !e.conns@[engine::dk(
        to,
    )].authorised ==> (r matches TextStep::Refused(Action::Emit(EngineEvent::Error(why))) && why@
        == "Устройство ещё не сопряжено"@)
    &&& from < until && e.has_authorised(to) ==> (r matches TextStep::Send(m) && if proto::is_readable(
        Message::Text(whole),
    ) {
        m.text@ == whole.text@
    } else {
        &&& m.text@.len() >= 1
        &&& m.text@.last() == '…'
        &&& m.text@.len() <= until - from + 1
        &&& m.text@.drop_last() == whole.text@.take(m.text@.len() - 1)
        &&& m.text@.len() < longer.text@.len() <= until - from + 1 && longer.text@
            == whole.text@.take(longer.text@.len() - 1).push('…') ==> !proto::is_readable(
            Message::Text(longer),
        )
    })
}

proof fn lemma_right_step(
    e: Engine,
    to: DeviceId,
    raw: Seq<char>,
    id: TransferId,
    ts: u64,
    r: TextStep,
    from: int,
    until: int,
    whole: TextMsg,
    longer: TextMsg,
)
    requires
        commands::composed(e, to, raw, id, ts, r),
        is_core_of(raw, from, until),
        whole.ts == ts,
        longer.ts == ts,
        is_line_of(whole.text@, raw.subrange(from, until)),
    ensures
        is_right_step(e, to, raw, r, from, until, whole, longer),
{
    let core = raw.subrange(from, until);
    lemma_trim_is_core(raw, from, until);
    let flat = util::clamped(core, core.len());
    assert(flat =~= whole.text@);
    if from < until && e.has_authorised(to) {
        commands::law_readable_text_is_sent_whole(raw, whole);
        let m = r->Send_0;
        if !proto::is_readable(Message::Text(whole)) {
            commands::lemma_room_within(flat, ts, flat.len());
            let k = commands::room_for(flat, ts, flat.len()) as int;
            proto::lemma_text_bytes(whole);
            assert(m.text@ == commands::marked_cut(flat, k));
            assert(m.text@.drop_last() =~= whole.text@.take(k));
            let n = longer.text@.len() - 1;
            if k < n <= flat.len() && longer.text@ == whole.text@.take(n).push('…') {
                commands::lemma_room_is_most(flat, ts, flat.len(), n as nat);
                assert(longer.text@ == commands::marked_cut(flat, n));
                proto::lemma_text_bytes(longer);
            }
        }
    }
}

/// What is sent of a text under a given identifier and time; see
/// [`is_right_step`].
pub proof fn law_what_is_sent_of_a_text(
    e: &Engine,
    to: DeviceId,
    raw: &str,
    id: TransferId,
    ts: u64,
    r: TextStep,
    from: int,
    until: int,
    whole: TextMsg,
    longer: TextMsg,
)
    requires
        call_ensures(Engine::send_text_with, (e, to, raw, id, ts), r),
        is_core_of(raw@, from, until),
        whole.ts == ts,
        longer.ts == ts,
        is_line_of(whole.text@, raw@.subrange(from, until)),
    ensures
        r matches TextStep::Send(m) ==> m.id == id && m.ts == ts,
        is_right_step(*e, to, raw@, r, from, until, whole, longer),
{
    lemma_right_step(*e, to, raw@, id, ts, r, from, until, whole, longer);
}

/// What is sent of a text at whatever time it is; see [`is_right_step`].
pub proof fn law_what_is_sent_of_a_text_now(
    e: &Engine,
    to: DeviceId,
    raw: &str,
    r: TextStep,
    from: int,
    until: int,
    whole: TextMsg,
    longer: TextMsg,
)
    requires
        call_ensures(Engine::send_text, (e, to, raw), r),
        is_core_of(raw@, from, until),
        r matches TextStep::Send(m) ==> whole.ts == m.ts && longer.ts == m.ts,
        is_line_of(whole.text@, raw@.subrange(from, until)),
    ensures
        is_right_step(*e, to, raw@, r, from, until, whole, longer),
{
    let (id, ts) = choose|id: TransferId, ts: u64| #[trigger]
        commands::composed(*e, to, raw@, id, ts, r);
    lemma_trim_is_core(raw@, from, until);
    if r is Send {
        lemma_right_step(*e, to, raw@, id, ts, r, from, until, whole, longer);
    }
}

pub proof fn lemma_trim_is_core(s: Seq<char>, from: int, to: int)
    requires
        is_core_of(s, from, to),
    ensures
        text::trim(s) == s.subrange(from, to),
{
    lemma_trim_start(s, from, to);
    let t = if from == to {
        Seq::empty()
    } else {
        s.skip(from)
    };
    if from < to {
        lemma_trim_end(t, to - from);
        assert(t.take(to - from) =~= s.subrange(from, to));
    } else {
        assert(s.subrange(from, to) =~= Seq::<char>::empty());
    }
}

proof fn lemma_trim_start(s: Seq<char>, from: int, to: int)
    requires
        is_core_of(s, from, to),
    ensures
        text::trim_start(s) == if from == to {
            Seq::<char>::empty()
        } else {
            s.skip(from)
        },
    decreases s.len(),
{
    if s.len() == 0 {
        assert(text::trim_start(s) =~= Seq::<char>::empty());
    } else if from == to {
        assert(text::is_white(s[0])) by {
            if from > 0 {
                assert(text::is_white(s[0]));
            } else {
                assert(text::is_white(s[0]));
            }
        }
        let t = s.skip(1);
        assert forall|i: int| 0 <= i < t.len() implies text::is_white(#[trigger] t[i]) by {
            if i + 1 < from {
                assert(text::is_white(s[i + 1]));
            } else {
                assert(text::is_white(s[i + 1]));
            }
        }
        lemma_trim_start(t, 0, 0);
    } else if from == 0 {
        assert(s.skip(0) =~= s);
    } else {
        let t = s.skip(1);
        assert(text::is_white(s[0]));
        assert forall|i: int| 0 <= i < from - 1 implies text::is_white(#[trigger] t[i]) by {
            assert(text::is_white(s[i + 1]));
        }
        assert forall|i: int| to - 1 <= i < t.len() implies text::is_white(#[trigger] t[i]) by {
            assert(text::is_white(s[i + 1]));
        }
        lemma_trim_start(t, from - 1, to - 1);
        assert(t.skip(from - 1) =~= s.skip(from));
    }
}

proof fn lemma_trim_end(s: Seq<char>, to: int)
    requires
        0 < to <= s.len(),
        !text::is_white(s[to - 1]),
        forall|i: int| to <= i < s.len() ==> text::is_white(#[trigger] s[i]),
    ensures
        text::trim_end(s) == s.take(to),
    decreases s.len(),
{
    if to == s.len() {
        assert(s.take(to) =~= s);
    } else {
        assert(text::is_white(s[s.len() - 1]));
        lemma_trim_end(s.drop_last(), to);
        assert(s.drop_last().take(to) =~= s.take(to));
    }
}

/// The user is told that a text was sent, with its text, receiver and time, or
/// why it was not.
pub proof fn law_sent_text_is_reported(
    to: DeviceId,
    m: TextMsg,
    outcome: Result<(), String>,
    r: Action,
)
    requires
        call_ensures(Engine::text_sent, (to, m, outcome), r),
    ensures
        match outcome {
            Ok(_) => r matches Action::Emit(EngineEvent::TextSent { to: d, text, ts }) && d == to
                && text@ == m.text@ && ts == m.ts,
            Err(why) => r matches Action::Emit(EngineEvent::Error(t)) && t@ == "Ошибка отправки: "@
                + why@,
        },
{
}

/// A peer that is not authorised may greet, keep alive and pair; anything else
/// that it says ends its connection and has no effect.
pub proof fn law_strangers_may_only_pair(
    e: &mut Engine,
    device: DeviceId,
    key: &[u8],
    msg: Message,
    now: u64,
    wall: u64,
    r: (Result<(), String>, Vec<Action>),
)
    requires
        call_ensures(Engine::on_message, (e, device, key, msg, now, wall), r),
        !old(e).has_authorised(device),
        !(msg is Hello || msg is Ping || msg is Pong || msg is PairRequest || msg is PairAccept
            || msg is PairReject),
    ensures
        r.0 matches Err(why) && why@ == "устройство прислало данные до сопряжения"@,
        *final(e) == *old(e),
        r.1@.len() == 0,
{
}

/// A keepalive is answered, an answer and an acknowledgement are not, and none
/// changes anything.
pub proof fn law_keepalives_are_answered(
    e: &mut Engine,
    device: DeviceId,
    key: &[u8],
    msg: Message,
    now: u64,
    wall: u64,
    r: (Result<(), String>, Vec<Action>),
)
    requires
        call_ensures(Engine::on_message, (e, device, key, msg, now, wall), r),
        msg is Ping || msg is Pong || msg is TextAck && old(e).has_authorised(device),
    ensures
        r.0 is Ok,
        *final(e) == *old(e),
        msg is Ping ==> r.1@.len() == 1 && r.1@[0] == (Action::Send {
            to: device,
            msg: Message::Pong,
        }),
        !(msg is Ping) ==> r.1@.len() == 0,
{
}

/// A greeting gives the connection its name and nothing more: whether its peer
/// is authorised does not change. A trusted device is noted as seen, under that
/// name, and the list is written. The user is shown the connection.
pub proof fn law_greeting_names_the_connection(
    e: &mut Engine,
    device: DeviceId,
    key: &[u8],
    h: proto::Hello,
    now: u64,
    wall: u64,
    r: (Result<(), String>, Vec<Action>),
    other: DeviceId,
    stranger: Seq<u8>,
)
    requires
        call_ensures(Engine::on_message, (e, device, key, Message::Hello(h), now, wall), r),
        old(e).conns@.contains_key(engine::dk(device)),
        trust::in_order(old(e).trust.spec_devices()),
        other != device,
        stranger != key@,
    ensures
        r.0 is Ok,
        final(e).conns@.contains_key(engine::dk(device)),
        ({
            let a = old(e).conns@[engine::dk(device)];
            let b = final(e).conns@[engine::dk(device)];
            &&& is_short_line_of(b.name@, h.name@, 64)
            &&& b.authorised == a.authorised
            &&& b.key == a.key && b.sas == a.sas && b.fingerprint == a.fingerprint && b.addr
                == a.addr
            &&& b.local_ok == a.local_ok && b.remote_ok == a.remote_ok && b.prompted_at
                == a.prompted_at
        }),
        old(e).conns@.contains_key(engine::dk(other)) ==> final(e).conns@[engine::dk(other)]
            == old(e).conns@[engine::dk(other)],
        final(e).conns@.contains_key(engine::dk(other)) == old(e).conns@.contains_key(
            engine::dk(other),
        ),
        final(e).trust.spec_get(stranger) == old(e).trust.spec_get(stranger),
        final(e).trust.authorises(key@) == old(e).trust.authorises(key@),
        !old(e).has_authorised(device) ==> final(e).trust == old(e).trust && r.1@.len() == 1,
        old(e).has_authorised(device) ==> {
            &&& r.1@.len() == 2
            &&& r.1@[0] == Action::SaveTrust { report: false }
            &&& old(e).trust.spec_get(key@) matches Some(a) ==> (final(e).trust.spec_get(
                key@,
            ) matches Some(b) && b.last_seen_ms == wall && b.blocked == a.blocked
                && b.auto_accept_files == a.auto_accept_files && (h.name@.len() > 0
                ==> is_short_line_of(b.name@, h.name@, 64)))
        },
        r.1@.last() matches Action::Emit(EngineEvent::Connected(info)) && info.device == device
            && is_short_line_of(info.name@, h.name@, 64) && info.paired
            == old(e).conns@[engine::dk(device)].authorised && info.sas@
            == old(e).conns@[engine::dk(device)].sas@,
        final(e).incoming == old(e).incoming,
        final(e).outgoing == old(e).outgoing,
        final(e).config == old(e).config,
{
    if engine::dk(other) == engine::dk(device) {
        engine::lemma_dk_injective(other, device);
    }
    let short = util::clamped(h.name@, 64);
    lemma_clamped_is_line(h.name@, 64);
    util::law_clamped_is_stable(h.name@, 64);
    if old(e).has_authorised(device) {
        let step = trust::touched_at(short, wall);
        assert forall|a: TrustedDevice, b: TrustedDevice| #[trigger] step(a, b) implies a.public_key@
            == b.public_key@ by {
            assert(trust::touched(a, b, short, wall));
        }
        trust::lemma_changed(
            old(e).trust.spec_devices(),
            final(e).trust.spec_devices(),
            key@,
            step,
            stranger,
        );
        if let Some(a) = old(e).trust.spec_get(key@) {
            let b = final(e).trust.spec_get(key@)->0;
            assert(step(a, b));
            assert(trust::touched(a, b, short, wall));
        }
    }
}

pub proof fn lemma_clamped_is_line(s: Seq<char>, max: nat)
    ensures
        is_short_line_of(util::clamped(s, max), s, max as int),
{
    if s.len() > max {
        assert(is_line_of(util::clamped(s, max).take(max as int), s.take(max as int)));
    }
}

} // verus!
