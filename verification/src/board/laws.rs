//! What holds of the calls that build what is shown.
//!
//! Each law speaks of a call through what the call promises, and says of its
//! result what a user sees.

use vstd::prelude::*;
use crate::board::rows;
use crate::board::rows::{Row, Status};
use crate::board::settings;
use crate::board::{Board, ChatItem, Tone};
use crate::codec;
use crate::engine;
use crate::engine::laws::talking;
use crate::engine::table;
use crate::engine::uri;
use crate::engine::{ConnInfo, EngineEvent, PeerInfo};
use crate::proto::TransferId;
use crate::security::fingerprint;
use crate::security::fingerprint::DeviceId;
use crate::security::trust::TrustedDevice;
use crate::text;
use crate::util::SocketAddr;

verus! {

/// One item was added behind the others; of more than `max` the first go.
pub open spec fn is_grown<T>(pre: Seq<T>, post: Seq<T>, max: int) -> bool {
    &&& pre.len() < max ==> post.len() == pre.len() + 1
    &&& pre.len() >= max ==> post.len() == max
    &&& forall|i: int|
        0 <= i < post.len() - 1 ==> #[trigger] post[i] == pre[pre.len() + 1 - post.len() + i]
}

/// What was said with a device.
pub open spec fn said(b: Board, device: DeviceId) -> Seq<ChatItem> {
    if b.chats@.contains_key(engine::dk(device)) {
        b.chats@[engine::dk(device)]@
    } else {
        Seq::empty()
    }
}

/// The chats with all other devices are as they were.
pub open spec fn others_silent(pre: Board, post: Board, device: DeviceId) -> bool {
    forall|d: DeviceId| d != device ==> #[trigger] said(post, d) == said(pre, d)
}

proof fn lemma_others_silent(pre: Board, post: Board, device: DeviceId)
    requires
        post.chats@ == pre.chats@.insert(
            engine::dk(device),
            post.chats@[engine::dk(device)],
        ),
    ensures
        others_silent(pre, post, device),
{
    assert forall|d: DeviceId| d != device implies #[trigger] said(post, d) == said(pre, d) by {
        if engine::dk(d) == engine::dk(device) {
            engine::lemma_dk_injective(d, device);
        }
    }
}

/// A text is shown in the chat with its device, behind what was said before, on
/// the side of whoever said it, as it is and with its time. No other chat
/// changes, nor anything else.
pub proof fn law_texts_are_shown(
    b: &mut Board,
    ev: EngineEvent,
    now: &str,
    sent: &str,
    shown: &str,
    device: DeviceId,
    said_text: Seq<char>,
)
    requires
        call_ensures(Board::apply, (b, ev, now, sent, shown), ()),
        old(b).wf(),
        match ev {
            EngineEvent::TextReceived { from, text, .. } => from == device && text@ == said_text,
            EngineEvent::TextSent { to, text, .. } => to == device && text@ == said_text,
            _ => false,
        },
    ensures
        is_grown(said(*old(b), device), said(*final(b), device), 1000),
        said(*final(b), device).len() > 0,
        said(*final(b), device).last().text@ == said_text,
        said(*final(b), device).last().stamp@ == sent@,
        said(*final(b), device).last().mine == ev is TextSent,
        !said(*final(b), device).last().system,
        others_silent(*old(b), *final(b), device),
        final(b).log == old(b).log,
        final(b).transfers == old(b).transfers,
        final(b).pairing == old(b).pairing,
        final(b).offers == old(b).offers,
        final(b).selected == old(b).selected,
{
    lemma_others_silent(*old(b), *final(b), device);
}

/// A prompt to pair shows what the engine asked to show: the device, the code,
/// the fingerprint, the address and who asked.
pub proof fn law_prompt_is_shown(
    b: &mut Board,
    device: DeviceId,
    name: String,
    print: String,
    sas: String,
    addr: SocketAddr,
    remote_initiated: bool,
    now: &str,
    sent: &str,
    shown: &str,
)
    requires
        call_ensures(
            Board::apply,
            (
                b,
                EngineEvent::PairingRequired {
                    device,
                    name,
                    fingerprint: print,
                    sas,
                    addr,
                    remote_initiated,
                },
                now,
                sent,
                shown,
            ),
            (),
        ),
    ensures
        final(b).pairing matches Some(p) && {
            &&& p.device == device
            &&& p.sas@ == sas@
            &&& p.fingerprint@ == print@
            &&& p.addr == addr
            &&& p.remote_initiated == remote_initiated
            &&& name@.len() > 0 ==> p.name@ == name@
            &&& name@.len() == 0 && !(old(b).names@.contains_key(engine::dk(device)) && old(b).names@[engine::dk(device)]@.len() > 0) ==> p.name@ == codec::hex(device.0@)
        },
        final(b).offers == old(b).offers,
        final(b).chats == old(b).chats,
        final(b).log == old(b).log,
{
}

/// A pairing that is over takes its prompt away, and no other one; it is noted
/// as what it was, and a device that was paired is selected.
pub proof fn law_end_of_pairing_is_shown(
    b: &mut Board,
    device: DeviceId,
    accepted: bool,
    now: &str,
    sent: &str,
    shown: &str,
    before: &Board,
    called: String,
)
    requires
        call_ensures(
            Board::apply,
            (b, EngineEvent::PairingFinished { device, accepted }, now, sent, shown),
            (),
        ),
        old(b).wf(),
        *before == *old(b),
        call_ensures(Board::name_of, (before, device), called),
    ensures
        old(b).pairing matches Some(p) ==> (p.device == device ==> final(b).pairing is None) && (
        p.device != device ==> final(b).pairing == Some(p)),
        old(b).pairing is None ==> final(b).pairing is None,
        accepted ==> final(b).selected == Some(device),
        !accepted ==> final(b).selected == old(b).selected,
        is_grown(old(b).log@, final(b).log@, 300),
        final(b).log@.len() > 0,
        final(b).log@.last().tone == if accepted {
            Tone::Good
        } else {
            Tone::Warning
        },
        accepted ==> final(b).log@.last().text@ == now@ + "  "@ + ("Устройство "@ + called@
            + " сопряжено"@),
        !accepted ==> final(b).log@.last().text@ == now@ + "  "@ + ("Сопряжение с "@ + called@
            + " отклонено"@),
        final(b).chats == old(b).chats,
        final(b).names == old(b).names,
        final(b).offers == old(b).offers,
        final(b).transfers == old(b).transfers,
        final(b).connected == old(b).connected,
{
}

/// An offer waits behind those before it, with its sender, name and size.
pub proof fn law_offers_queue_up(
    b: &mut Board,
    from: DeviceId,
    transfer: TransferId,
    name: String,
    size: u64,
    now: &str,
    sent: &str,
    shown: &str,
)
    requires
        call_ensures(
            Board::apply,
            (b, EngineEvent::OfferReceived { from, transfer, name, size }, now, sent, shown),
            (),
        ),
    ensures
        final(b).offers@.len() == old(b).offers@.len() + 1,
        final(b).offers@.drop_last() == old(b).offers@,
        ({
            let o = final(b).offers@.last();
            o.transfer == transfer && o.from == from && o.name@ == name@ && o.size == size
        }),
        final(b).pairing == old(b).pairing,
        final(b).transfers == old(b).transfers,
{
    assert(final(b).offers@.drop_last() =~= old(b).offers@);
}

/// The answer of the user is for the offer that waited longest; the others keep
/// waiting in their order. One that was accepted is listed, one that was not is
/// not.
pub proof fn law_first_offer_is_answered(b: &mut Board, accept: bool, r: Option<TransferId>)
    requires
        call_ensures(Board::answer_offer, (b, accept), r),
    ensures
        old(b).offers@.len() == 0 ==> r is None && *final(b) == *old(b),
        final(b).chats == old(b).chats,
        final(b).log == old(b).log,
        final(b).pairing == old(b).pairing,
        final(b).selected == old(b).selected,
        final(b).connected == old(b).connected,
        old(b).offers@.len() > 0 ==> {
            let o = old(b).offers@[0];
            let k = engine::tk(o.transfer);
            &&& r == Some(o.transfer)
            &&& final(b).offers@ == old(b).offers@.skip(1)
            &&& !accept ==> final(b).transfers@ == old(b).transfers@
            &&& accept ==> final(b).transfers@.contains_key(k) && {
                let row = final(b).transfers@[k];
                &&& row.id == o.transfer && row.peer == o.from && row.name@ == o.name@
                &&& row.size == o.size && row.done == 0 && row.incoming && !row.finished
                &&& row.error is None && row.path is None
            }
            &&& forall|x: u128|
                x != k ==> (#[trigger] final(b).transfers@.contains_key(x)
                    == old(b).transfers@.contains_key(x)) && (old(b).transfers@.contains_key(x)
                    ==> final(b).transfers@[x] == old(b).transfers@[x])
        },
{
    if old(b).offers@.len() > 0 {
        assert(old(b).offers@.remove(0) =~= old(b).offers@.skip(1));
    }
}

/// The answer to a pairing prompt is for the device that it was shown for, and
/// the prompt is gone.
pub proof fn law_prompt_is_answered(b: &mut Board, r: Option<DeviceId>)
    requires
        call_ensures(Board::answer_pairing, (b,), r),
    ensures
        final(b).pairing is None,
        match old(b).pairing {
            Some(p) => r == Some(p.device),
            None => r is None,
        },
        final(b).offers == old(b).offers,
        final(b).chats == old(b).chats,
        final(b).selected == old(b).selected,
{
}

/// A transfer that goes on is listed with how much of it is done; one that is
/// over is listed as over, with its path or its error, and the user reads so in
/// the log and in the chat. No other row changes.
pub proof fn law_transfers_are_followed(
    b: &mut Board,
    ev: EngineEvent,
    id: TransferId,
    now: &str,
    sent: &str,
    shown: &str,
    other: u128,
)
    requires
        call_ensures(Board::apply, (b, ev, now, sent, shown), ()),
        old(b).wf(),
        match ev {
            EngineEvent::TransferProgress { transfer, .. } => transfer == id,
            EngineEvent::TransferFinished { transfer, .. } => transfer == id,
            _ => false,
        },
        other != engine::tk(id),
    ensures
        final(b).transfers@.contains_key(engine::tk(id)),
        final(b).transfers@.contains_key(other) == old(b).transfers@.contains_key(other),
        old(b).transfers@.contains_key(other) ==> final(b).transfers@[other]
            == old(b).transfers@[other],
        ({
            let row = final(b).transfers@[engine::tk(id)];
            let was = old(b).transfers@[engine::tk(id)];
            match ev {
                EngineEvent::TransferProgress { done, total, incoming, .. } => {
                    &&& row.done == done
                    &&& row.size == total
                    &&& old(b).transfers@.contains_key(engine::tk(id)) ==> row.name@ == was.name@
                        && row.peer == was.peer && row.incoming == was.incoming && row.finished
                        == was.finished && row.error == was.error && row.path == was.path
                    &&& !old(b).transfers@.contains_key(engine::tk(id)) ==> row.incoming == incoming
                        && !row.finished && row.id == id && row.name@.len() == 0 && (old(b).selected matches Some(d) ==> row.peer == d)
                    &&& final(b).chats == old(b).chats
                    &&& final(b).log == old(b).log
                },
                EngineEvent::TransferFinished { incoming, name, path, error, .. } => {
                    &&& row.finished
                    &&& row.id == id
                    &&& row.incoming == incoming
                    &&& row.name@ == name@
                    &&& row.path == path
                    &&& row.error == error
                    &&& old(b).transfers@.contains_key(engine::tk(id)) ==> row.peer == was.peer
                    &&& !old(b).transfers@.contains_key(engine::tk(id)) ==> (old(b).selected matches Some(
                        d,
                    ) ==> row.peer == d)
                    &&& row.done == 0 && row.size == 0
                    &&& said(*final(b), row.peer).last().stamp@ == now@
                    &&& now@ + "  "@ + said(*final(b), row.peer).last().text@ == final(b).log@.last().text@
                    &&& others_silent(*old(b), *final(b), row.peer)
                    &&& is_grown(old(b).log@, final(b).log@, 300)
                    &&& final(b).log@.last().tone == if error is Some {
                        Tone::Bad
                    } else {
                        Tone::Good
                    }
                    &&& final(b).log@.last().text@ == now@ + "  "@ + (match error {
                        Some(e) => "✖ Файл «"@ + name@ + "» не передан: "@ + e@,
                        None => match path {
                            Some(p) => "✔ Файл «"@ + name@ + "» сохранён: "@ + p@,
                            None => "✔ Файл «"@ + name@ + "» отправлен"@,
                        },
                    })
                    &&& said(*final(b), row.peer).last().system
                    &&& said(*final(b), row.peer).last().mine == !incoming
                    &&& is_grown(said(*old(b), row.peer), said(*final(b), row.peer), 1000)
                },
                _ => true,
            }
        }),
        final(b).offers == old(b).offers,
        final(b).pairing == old(b).pairing,
        final(b).selected == old(b).selected,
        final(b).connected == old(b).connected,
{
    if ev is TransferFinished {
        lemma_others_silent(*old(b), *final(b), final(b).transfers@[engine::tk(id)].peer);
    }
}

/// A device is shown as connected from the moment that it is until it is not,
/// and as paired exactly if it is; the others are not concerned. A name that it
/// tells is the one that it is called by.
pub proof fn law_connections_are_followed(
    b: &mut Board,
    ev: EngineEvent,
    device: DeviceId,
    now: &str,
    sent: &str,
    shown: &str,
    other: DeviceId,
    called: String,
    after: &Board,
)
    requires
        call_ensures(Board::apply, (b, ev, now, sent, shown), ()),
        old(b).wf(),
        match ev {
            EngineEvent::Connected(c) => c.device == device,
            EngineEvent::Disconnected { device: d, .. } => d == device,
            _ => false,
        },
        other != device,
        *after == *final(b),
        call_ensures(Board::name_of, (after, device), called),
    ensures
        final(b).connected@.contains_key(engine::dk(other)) == old(b).connected@.contains_key(
            engine::dk(other),
        ),
        old(b).connected@.contains_key(engine::dk(other)) ==> final(b).connected@[engine::dk(other)]
            == old(b).connected@[engine::dk(other)],
        match ev {
            EngineEvent::Connected(c) => {
                &&& final(b).connected@.contains_key(engine::dk(device))
                &&& final(b).connected@[engine::dk(device)] == c.paired
                &&& c.name@.len() > 0 ==> called@ == c.name@
                &&& old(b).selected is Some ==> final(b).selected == old(b).selected
                &&& old(b).selected is None ==> final(b).selected == if c.paired {
                    Some(device)
                } else {
                    None
                }
                &&& c.paired ==> is_grown(old(b).log@, final(b).log@, 300)
                &&& c.paired ==> final(b).log@.last().tone == Tone::Good && final(b).log@.last().text@ == now@ + "  "@ + ("Установлено защищённое соединение с "@
                    + called@)
                &&& !c.paired ==> final(b).log == old(b).log
            },
            EngineEvent::Disconnected { reason, .. } => {
                &&& !final(b).connected@.contains_key(engine::dk(device))
                &&& is_grown(old(b).log@, final(b).log@, 300)
                &&& final(b).log@.last().text@ == now@ + "  "@ + ("Соединение с "@ + called@
                    + " закрыто: "@ + reason@)
                &&& final(b).selected == old(b).selected
            },
            _ => true,
        },
        final(b).chats == old(b).chats,
        final(b).transfers == old(b).transfers,
        final(b).offers == old(b).offers,
        final(b).pairing == old(b).pairing,
{
    if engine::dk(other) == engine::dk(device) {
        engine::lemma_dk_injective(other, device);
    }
}

/// Notices and errors are noted with the time and as what they are, behind the
/// lines before; a change of trust changes nothing that is shown.
pub proof fn law_notices_are_noted(
    b: &mut Board,
    ev: EngineEvent,
    now: &str,
    sent: &str,
    shown: &str,
    before: &Board,
    lost: DeviceId,
    called: String,
)
    requires
        call_ensures(Board::apply, (b, ev, now, sent, shown), ()),
        old(b).wf(),
        *before == *old(b),
        call_ensures(Board::name_of, (before, lost), called),
        ev matches EngineEvent::PeerLost(d) ==> d == lost,
        ev is Notice || ev is Error || ev is TrustChanged || ev is PeerLost || ev is PeerDiscovered,
    ensures
        ev is TrustChanged ==> *final(b) == *old(b),
        !(ev is TrustChanged) ==> is_grown(old(b).log@, final(b).log@, 300)
            && final(b).log@.len() > 0,
        match ev {
            EngineEvent::Notice(m) => final(b).log@.last().text@ == now@ + "  "@ + m@ && final(b).log@.last().tone == Tone::Dim,
            EngineEvent::Error(m) => final(b).log@.last().text@ == now@ + "  "@ + m@ && final(b).log@.last().tone == Tone::Bad,
            EngineEvent::PeerDiscovered(p) => final(b).log@.last().text@ == now@ + "  "@ + (
            "Найдено устройство: "@ + p.name@ + " ("@ + shown@ + ")"@) && final(b).names@.contains_key(engine::dk(p.device)) && final(b).names@[engine::dk(p.device)]@
                == p.name@ && final(b).log@.last().tone == Tone::Dim,
            EngineEvent::PeerLost(_) => final(b).log@.last().text@ == now@ + "  "@ + ("Устройство "@
                + called@ + " пропало из сети"@) && final(b).log@.last().tone == Tone::Dim,
            _ => true,
        },
        final(b).chats == old(b).chats,
        final(b).connected == old(b).connected,
        final(b).transfers == old(b).transfers,
        final(b).offers == old(b).offers,
        final(b).pairing == old(b).pairing,
        final(b).selected == old(b).selected,
{
}

/// A device is called by its name, and by its identifier where it told none.
pub proof fn law_devices_are_called_by_name(b: &Board, id: DeviceId, r: String, written: String)
    requires
        call_ensures(Board::name_of, (b, id), r),
        call_ensures(DeviceId::text, (&id,), written),
    ensures
        b.names@.contains_key(engine::dk(id)) && b.names@[engine::dk(id)]@.len() > 0 ==> r@
            == b.names@[engine::dk(id)]@,
        !(b.names@.contains_key(engine::dk(id)) && b.names@[engine::dk(id)]@.len() > 0) ==> r@
            == written@,
{
}

/// How a device with a given state is listed.
pub open spec fn is_listed(
    r: Row,
    id: DeviceId,
    name: Seq<char>,
    online: bool,
    connected: bool,
    blocked: bool,
    paired: bool,
    chosen: Option<DeviceId>,
) -> bool {
    &&& r.id == id
    &&& name.len() > 0 ==> r.label@ == name
    &&& name.len() == 0 ==> r.label@ == codec::hex(id.0@)
    &&& r.dot is Blocked <==> blocked
    &&& r.dot is Connected <==> connected && !blocked
    &&& r.dot is Online <==> online && !connected && !blocked
    &&& r.button is Disconnect <==> connected
    &&& r.button is Connect <==> !connected && online && !blocked && paired
    &&& r.button is Pair <==> !connected && online && !blocked && !paired
    &&& r.selected <==> chosen == Some(id)
}

/// A device is listed under its name, with a mark and a button that follow its
/// state.
pub proof fn law_device_row_follows_the_state(
    b: &Board,
    id: DeviceId,
    name: &str,
    online: bool,
    connected: bool,
    blocked: bool,
    paired: bool,
    r: Row,
)
    requires
        call_ensures(Board::device_row, (b, id, name, online, connected, blocked, paired), r),
    ensures
        is_listed(r, id, name@, online, connected, blocked, paired, b.selected),
{
}

/// Every trusted device whose key can be read has a row, in the order of the
/// list, and there are no other rows. A row says truly whether the device
/// announces itself, is connected and paired, or is blocked.
pub proof fn law_trusted_devices_are_listed(
    b: &mut Board,
    trusted: &Vec<TrustedDevice>,
    peers: &Vec<PeerInfo>,
    conns: &Vec<ConnInfo>,
    r: Vec<Row>,
    i: int,
    j: int,
)
    requires
        call_ensures(Board::trusted_rows, (b, trusted, peers, conns), r),
        0 <= i < r@.len(),
        0 <= j < trusted@.len(),
    ensures
        exists|n: int|
            0 <= n < trusted@.len() && #[trigger] is_row_of(
                r@[i],
                trusted@[n],
                peers@,
                conns@,
                old(b).selected,
            ),
        trusted@[j].spec_key() is Some ==> exists|n: int|
            0 <= n < r@.len() && #[trigger] is_row_of(
                r@[n],
                trusted@[j],
                peers@,
                conns@,
                old(b).selected,
            ),
        final(b).chats == old(b).chats,
        final(b).selected == old(b).selected,
{
    lemma_trusted(*old(b), trusted@, peers@, conns@, trusted@.len(), r@, i, j);
}

/// The row of a trusted device.
pub open spec fn is_row_of(
    r: Row,
    d: TrustedDevice,
    peers: Seq<PeerInfo>,
    conns: Seq<ConnInfo>,
    chosen: Option<DeviceId>,
) -> bool {
    &&& d.spec_key() matches Some(k) && r.id.0@ == fingerprint::device_bytes(k)
    &&& is_listed(
        r,
        r.id,
        d.name@,
        exists|n: int| 0 <= n < peers.len() && (#[trigger] peers[n]).device == r.id,
        exists|n: int|
            0 <= n < conns.len() && (#[trigger] conns[n]).device == r.id && conns[n].paired,
        d.blocked,
        true,
        chosen,
    )
}

proof fn lemma_trusted(
    b: Board,
    ds: Seq<TrustedDevice>,
    peers: Seq<PeerInfo>,
    conns: Seq<ConnInfo>,
    n: nat,
    r: Seq<Row>,
    i: int,
    j: int,
)
    requires
        rows::lists_trusted(b, ds, peers, conns, n, r),
        n <= ds.len(),
    ensures
        0 <= i < r.len() ==> exists|x: int|
            0 <= x < n && #[trigger] is_row_of(r[i], ds[x], peers, conns, b.selected),
        0 <= j < n && ds[j].spec_key() is Some ==> exists|x: int|
            0 <= x < r.len() && #[trigger] is_row_of(r[x], ds[j], peers, conns, b.selected),
    decreases n,
{
    if n > 0 {
        if ds[n - 1].spec_key() is Some {
            let last = r.len() - 1;
            lemma_trusted(b, ds, peers, conns, (n - 1) as nat, r.drop_last(), i, j);
            assert(is_row_of(r[last], ds[n - 1], peers, conns, b.selected));
            if 0 <= i < last {
                let x = choose|x: int|
                    0 <= x < n - 1 && #[trigger] is_row_of(
                        r.drop_last()[i],
                        ds[x],
                        peers,
                        conns,
                        b.selected,
                    );
                assert(is_row_of(r[i], ds[x], peers, conns, b.selected));
            }
            if 0 <= j < n - 1 && ds[j].spec_key() is Some {
                let x = choose|x: int|
                    0 <= x < last && #[trigger] is_row_of(
                        r.drop_last()[x],
                        ds[j],
                        peers,
                        conns,
                        b.selected,
                    );
                assert(is_row_of(r[x], ds[j], peers, conns, b.selected));
            }
        } else {
            lemma_trusted(b, ds, peers, conns, (n - 1) as nat, r, i, j);
        }
    }
}

/// Every device that announces itself and is not paired has a row, and there
/// are no other rows. It offers to pair, or to disconnect what is connected.
pub proof fn law_unpaired_devices_are_listed(
    b: &mut Board,
    peers: &Vec<PeerInfo>,
    conns: &Vec<ConnInfo>,
    r: Vec<Row>,
    i: int,
    j: int,
)
    requires
        call_ensures(Board::unknown_rows, (b, peers, conns), r),
        0 <= i < r@.len(),
        0 <= j < peers@.len(),
    ensures
        exists|n: int|
            0 <= n < peers@.len() && #[trigger] is_stranger(
                r@[i],
                peers@[n],
                conns@,
                old(b).selected,
            ),
        !peers@[j].paired ==> exists|n: int|
            0 <= n < r@.len() && #[trigger] is_stranger(
                r@[n],
                peers@[j],
                conns@,
                old(b).selected,
            ),
{
    lemma_unknown(*old(b), peers@, conns@, peers@.len(), r@, i, j);
}

/// The row of a device that is not paired.
pub open spec fn is_stranger(
    r: Row,
    p: PeerInfo,
    conns: Seq<ConnInfo>,
    chosen: Option<DeviceId>,
) -> bool {
    &&& !p.paired
    &&& is_listed(
        r,
        p.device,
        p.name@,
        true,
        exists|n: int| 0 <= n < conns.len() && (#[trigger] conns[n]).device == p.device,
        false,
        false,
        chosen,
    )
}

proof fn lemma_unknown(
    b: Board,
    peers: Seq<PeerInfo>,
    conns: Seq<ConnInfo>,
    n: nat,
    r: Seq<Row>,
    i: int,
    j: int,
)
    requires
        rows::lists_unknown(b, peers, conns, n, r),
        n <= peers.len(),
    ensures
        0 <= i < r.len() ==> exists|x: int|
            0 <= x < n && #[trigger] is_stranger(r[i], peers[x], conns, b.selected),
        0 <= j < n && !peers[j].paired ==> exists|x: int|
            0 <= x < r.len() && #[trigger] is_stranger(r[x], peers[j], conns, b.selected),
    decreases n,
{
    if n > 0 {
        if !peers[n - 1].paired {
            let last = r.len() - 1;
            lemma_unknown(b, peers, conns, (n - 1) as nat, r.drop_last(), i, j);
            assert(is_stranger(r[last], peers[n - 1], conns, b.selected));
            if 0 <= i < last {
                let x = choose|x: int|
                    0 <= x < n - 1 && #[trigger] is_stranger(
                        r.drop_last()[i],
                        peers[x],
                        conns,
                        b.selected,
                    );
                assert(is_stranger(r[i], peers[x], conns, b.selected));
            }
            if 0 <= j < n - 1 && !peers[j].paired {
                let x = choose|x: int|
                    0 <= x < last && #[trigger] is_stranger(
                        r.drop_last()[x],
                        peers[j],
                        conns,
                        b.selected,
                    );
                assert(is_stranger(r[x], peers[j], conns, b.selected));
            }
        } else {
            lemma_unknown(b, peers, conns, (n - 1) as nat, r, i, j);
        }
    }
}

/// What is said of the connection to a device is what its connection is.
pub proof fn law_status_is_that_of_the_connection(
    conns: &Vec<ConnInfo>,
    id: DeviceId,
    r: Status,
    i: int,
)
    requires
        call_ensures(rows::status, (conns, id), r),
        0 <= i < conns@.len(),
        conns@[i].device == id,
        forall|j: int| 0 <= j < conns@.len() && j != i ==> (#[trigger] conns@[j]).device != id,
    ensures
        r is Paired <==> conns@[i].paired,
        r is Unpaired <==> !conns@[i].paired,
{
    lemma_status(conns@, id, i);
}

/// A device without a connection is offline.
pub proof fn law_no_connection_is_offline(conns: &Vec<ConnInfo>, id: DeviceId, r: Status)
    requires
        call_ensures(rows::status, (conns, id), r),
        forall|j: int| 0 <= j < conns@.len() ==> (#[trigger] conns@[j]).device != id,
    ensures
        r is Offline,
{
    lemma_status(conns@, id, conns@.len() as int);
}

proof fn lemma_status(conns: Seq<ConnInfo>, id: DeviceId, i: int)
    requires
        0 <= i <= conns.len(),
        i < conns.len() ==> conns[i].device == id,
        forall|j: int| 0 <= j < i ==> (#[trigger] conns[j]).device != id,
    ensures
        i == conns.len() ==> rows::status_of(conns, id) is Offline,
        i < conns.len() ==> rows::status_of(conns, id) == if conns[i].paired {
            Status::Paired
        } else {
            Status::Unpaired
        },
    decreases i,
{
    if i > 0 {
        let t = conns.skip(1);
        assert forall|j: int| 0 <= j < i - 1 implies (#[trigger] t[j]).device != id by {
            assert(t[j] == conns[j + 1]);
        }
        assert(conns[0].device != id);
        lemma_status(t, id, i - 1);
    }
}

/// The transfers that go on are those that are not over.
pub proof fn law_active_transfers_are_those_that_go_on(b: &Board, r: Vec<u128>, k: u128)
    requires
        call_ensures(Board::active, (b,), r),
    ensures
        r@.contains(k) <==> b.transfers@.contains_key(k) && !b.transfers@[k].finished,
{
    let m = b.transfers@;
    let ks = choose|ks: Seq<u128>| #[trigger]
        table::wide_keys_of(m, ks) && r@ == rows::going_on(m, ks);
    rows::lemma_filter_contains(ks, |x: u128| !m[x].finished, k);
    assert(ks.contains(k) <==> m.contains_key(k));
}

/// Of the transfers that are over at most five are shown, and nothing else.
pub proof fn law_recent_transfers_are_over(b: &Board, r: Vec<u128>, i: int)
    requires
        call_ensures(Board::recent, (b,), r),
        0 <= i < r@.len(),
    ensures
        r@.len() <= 5,
        b.transfers@.contains_key(r@[i]),
        b.transfers@[r@[i]].finished,
{
    let m = b.transfers@;
    let ks = choose|ks: Seq<u128>| #[trigger]
        table::wide_keys_of(m, ks) && r@ == rows::latest(rows::all_over(m, ks));
    let over = rows::all_over(m, ks);
    let x = over[over.len() - 1 - i];
    assert(over.contains(x));
    rows::lemma_filter_contains(ks, |y: u128| m[y].finished, x);
    assert(ks.contains(x) <==> m.contains_key(x));
}

/// Transfers that go on are listed in the order of their numbers; of those that
/// are over the ones with the largest numbers are shown, the largest first.
pub proof fn law_order_of_transfers(
    b: &Board,
    active: Vec<u128>,
    recent: Vec<u128>,
    i: int,
    j: int,
    k: u128,
)
    requires
        call_ensures(Board::active, (b,), active),
        call_ensures(Board::recent, (b,), recent),
        0 <= i < j,
        b.transfers@.contains_key(k),
        b.transfers@[k].finished,
    ensures
        j < active@.len() ==> active@[i] < active@[j],
        j < recent@.len() ==> recent@[i] > recent@[j],
        recent@.contains(k) || recent@.len() == 5,
        !recent@.contains(k) ==> k < recent@[4],
{
    let m = b.transfers@;
    let ks = choose|ks: Seq<u128>| #[trigger]
        table::wide_keys_of(m, ks) && active@ == rows::going_on(m, ks);
    lemma_filter_ascending(ks, |x: u128| !m[x].finished);
    let ls = choose|ls: Seq<u128>| #[trigger]
        table::wide_keys_of(m, ls) && recent@ == rows::latest(rows::all_over(m, ls));
    let over = rows::all_over(m, ls);
    lemma_filter_ascending(ls, |x: u128| m[x].finished);
    rows::lemma_filter_contains(ls, |x: u128| m[x].finished, k);
    assert(ls.contains(k));
    let n = choose|n: int| 0 <= n < over.len() && over[n] == k;
    let at = over.len() - 1 - n;
    if at < recent@.len() {
        assert(recent@[at] == k);
    } else {
        assert(recent@.len() == 5);
        assert(recent@[4] == over[over.len() - 5]);
    }
}

proof fn lemma_filter_ascending(s: Seq<u128>, f: spec_fn(u128) -> bool)
    requires
        forall|i: int, j: int| 0 <= i < j < s.len() ==> #[trigger] s[i] < #[trigger] s[j],
    ensures
        forall|i: int, j: int|
            0 <= i < j < s.filter(f).len() ==> #[trigger] s.filter(f)[i] < #[trigger] s.filter(f)[j],
        forall|i: int| 0 <= i < s.filter(f).len() ==> s.contains(#[trigger] s.filter(f)[i]),
    decreases s.len(),
{
    reveal(Seq::filter);
    if s.len() > 0 {
        let t = s.drop_last();
        assert forall|i: int, j: int| 0 <= i < j < t.len() implies #[trigger] t[i]
            < #[trigger] t[j] by {
            assert(t[i] == s[i] && t[j] == s[j]);
        }
        lemma_filter_ascending(t, f);
        let g = t.filter(f);
        let h = s.filter(f);
        assert forall|i: int| 0 <= i < h.len() implies s.contains(#[trigger] h[i]) by {
            if i < g.len() {
                assert(t.contains(g[i]));
                let n = choose|n: int| 0 <= n < t.len() && t[n] == g[i];
                assert(s[n] == h[i]);
            } else {
                assert(s[s.len() - 1] == h[i]);
            }
        }
        assert forall|i: int, j: int| 0 <= i < j < h.len() implies #[trigger] h[i]
            < #[trigger] h[j] by {
            if j == g.len() {
                assert(t.contains(g[i]));
                let n = choose|n: int| 0 <= n < t.len() && t[n] == g[i];
                assert(s[n] < s[s.len() - 1]);
            } else {
                assert(h[i] == g[i] && h[j] == g[j]);
            }
        }
    }
}

/// A line is noted with its time, behind the others.
pub proof fn law_lines_are_noted(b: &mut Board, line: &str, tone: Tone, now: &str)
    requires
        call_ensures(Board::note, (b, line, tone, now), ()),
        old(b).wf(),
    ensures
        is_grown(old(b).log@, final(b).log@, 300),
        final(b).log@.len() > 0,
        final(b).log@.last().text@ == now@ + "  "@ + line@,
        final(b).log@.last().tone == tone,
        final(b).chats == old(b).chats,
        final(b).transfers == old(b).transfers,
{
}

/// A message goes into the chat with its device, behind the others.
pub proof fn law_messages_go_into_their_chat(b: &mut Board, device: DeviceId, item: ChatItem)
    requires
        call_ensures(Board::push_chat, (b, device, item), ()),
        old(b).wf(),
    ensures
        is_grown(said(*old(b), device), said(*final(b), device), 1000),
        said(*final(b), device).len() > 0,
        ({
            let last = said(*final(b), device).last();
            last.text@ == item.text@ && last.stamp@ == item.stamp@ && last.mine == item.mine
                && last.system == item.system
        }),
        others_silent(*old(b), *final(b), device),
        final(b).log == old(b).log,
{
    lemma_others_silent(*old(b), *final(b), device);
}

/// Nothing is shown at first.
pub proof fn law_nothing_is_shown_at_first(b: Board, device: DeviceId)
    requires
        call_ensures(Board::new, (), b),
    ensures
        b.log@.len() == 0,
        said(b, device).len() == 0,
        b.offers@.len() == 0,
        b.pairing is None,
        b.selected is None,
        !b.connected@.contains_key(engine::dk(device)),
        b.transfers@.len() == 0,
{
}

/// Clearing empties the log and drops the transfers that are over, and no
/// others; chats and prompts stay.
pub proof fn law_clearing_keeps_what_goes_on(b: &mut Board, k: u128)
    requires
        call_ensures(Board::clear, (b,), ()),
    ensures
        final(b).log@.len() == 0,
        final(b).transfers@.contains_key(k) <==> old(b).transfers@.contains_key(k) && !old(b).transfers@[k].finished,
        final(b).transfers@.contains_key(k) ==> final(b).transfers@[k] == old(b).transfers@[k],
        final(b).chats == old(b).chats,
        final(b).offers == old(b).offers,
        final(b).pairing == old(b).pairing,
        final(b).selected == old(b).selected,
        final(b).connected == old(b).connected,
{
}

/// A new key may be stored without a passphrase only if the user wants that,
/// else with one of eight characters or more that was typed the same twice.
pub proof fn law_which_passphrases_are_taken(
    unprotected: bool,
    pass: &str,
    again: &str,
    r: Result<(), String>,
)
    requires
        call_ensures(settings::check_passphrase, (unprotected, pass, again), r),
    ensures
        r is Ok <==> unprotected || (pass@.len() >= 8 && pass@ == again@),
        r matches Err(why) ==> why@ == if pass@.len() < 8 {
            "Пароль должен быть не короче 8 символов"@
        } else {
            "Пароли не совпадают"@
        },
{
}

/// The name that the user gives this device is what stands between the white
/// space of the text, in one line and cut at 32 characters; a blank text gives
/// a name of its own.
pub proof fn law_device_name_is_the_chosen_one(raw: &str, r: String, from: int, to: int)
    requires
        call_ensures(settings::device_name, (raw,), r),
        talking::is_core_of(raw@, from, to),
    ensures
        from < to ==> talking::is_short_line_of(r@, raw@.subrange(from, to), 32),
        from == to ==> r@ == "SyncMob PC"@,
{
    talking::lemma_trim_is_core(raw@, from, to);
    talking::lemma_clamped_is_line(raw@.subrange(from, to), 32);
}

/// A size limit is shown in whole GiB.
pub proof fn law_size_limit_is_shown_in_gib(bytes: u64, r: String)
    requires
        call_ensures(settings::limit_text, (bytes,), r),
    ensures
        r@ == text::decimal((bytes / 1_073_741_824) as nat),
{
}

/// A size limit is given in whole GiB, as far as it can be counted in bytes.
pub proof fn law_size_limit_is_given_in_gib(
    s: &str,
    n: Option<u64>,
    too_many: bool,
    r: Option<u64>,
)
    requires
        call_ensures(uri::parse_number, (s, u64::MAX), n),
        call_ensures(settings::is_too_many_gib, (s,), too_many),
        !too_many ==> call_ensures(settings::limit_bytes, (s,), r),
    ensures
        too_many <==> (n matches Some(g) && g * 1_073_741_824 > u64::MAX),
        !too_many ==> (r is Some <==> n is Some),
        !too_many ==> (r matches Some(b) ==> b == n->0 * 1_073_741_824),
{
}

} // verus!
