//! What a front-end shows: the state that engine events add up to.
//!
//! The board owns no networking state. Every security decision is an explicit
//! answer of the user and is enforced in the engine, never here. Times are
//! shown as texts that the caller supplies.

pub mod laws;
pub mod rows;
pub mod settings;

use std::collections::BTreeMap;
use vstd::prelude::*;
use vstd::string::*;
use crate::codec;
use crate::engine;
use crate::engine::{ConnInfo, EngineEvent};
use crate::proto::TransferId;
use crate::security::fingerprint::DeviceId;
use crate::util::SocketAddr;

verus! {

broadcast use vstd::laws_cmp::group_laws_cmp;

/// Lines of the log that are kept.
pub const MAX_LOG: usize = 300;

/// Messages of a chat that are kept.
pub const MAX_CHAT: usize = 1000;

/// How a line is coloured.
#[derive(Clone, Copy, PartialEq, Eq, Debug, Structural)]
pub enum Tone {
    Dim,
    Good,
    Warning,
    Bad,
}

#[derive(Debug)]
pub struct LogLine {
    pub text: String,
    pub tone: Tone,
}

#[derive(Debug)]
pub struct ChatItem {
    pub stamp: String,
    pub mine: bool,
    pub text: String,
    pub system: bool,
}

#[derive(Debug)]
pub struct TransferRow {
    pub id: TransferId,
    pub name: String,
    pub size: u64,
    pub done: u64,
    pub incoming: bool,
    pub peer: DeviceId,
    pub finished: bool,
    pub error: Option<String>,
    pub path: Option<String>,
}

#[derive(Debug)]
pub struct PairPrompt {
    pub device: DeviceId,
    pub name: String,
    pub fingerprint: String,
    pub sas: String,
    pub addr: SocketAddr,
    pub remote_initiated: bool,
}

#[derive(Debug)]
pub struct OfferPrompt {
    pub transfer: TransferId,
    pub from: DeviceId,
    pub name: String,
    pub size: u64,
}

pub struct Board {
    pub selected: Option<DeviceId>,
    pub chats: BTreeMap<u64, Vec<ChatItem>>,
    pub names: BTreeMap<u64, String>,
    pub connected: BTreeMap<u64, bool>,
    pub pairing: Option<PairPrompt>,
    pub offers: Vec<OfferPrompt>,
    pub transfers: BTreeMap<u128, TransferRow>,
    pub log: Vec<LogLine>,
}

/// The last `n` of a sequence.
pub open spec fn last_of<T>(s: Seq<T>, n: nat) -> Seq<T> {
    if s.len() > n {
        s.skip(s.len() - n)
    } else {
        s
    }
}

/// The name of a device, or its identifier where it has none.
pub open spec fn shown_name(names: Map<u64, String>, id: DeviceId) -> Seq<char> {
    let k = engine::dk(id);
    if names.contains_key(k) && names[k]@.len() > 0 {
        names[k]@
    } else {
        codec::hex(id.0@)
    }
}

/// The log with one more line, of which the last ones are kept.
pub open spec fn logged(
    pre: Seq<LogLine>,
    post: Seq<LogLine>,
    now: Seq<char>,
    text: Seq<char>,
    tone: Tone,
) -> bool {
    &&& post.len() > 0
    &&& post == last_of(pre.push(post.last()), MAX_LOG as nat)
    &&& post.last().text@ == now + "  "@ + text
    &&& post.last().tone == tone
}

/// What was said with a device.
pub open spec fn chat_of(chats: Map<u64, Vec<ChatItem>>, id: DeviceId) -> Seq<ChatItem> {
    if chats.contains_key(engine::dk(id)) {
        chats[engine::dk(id)]@
    } else {
        Seq::empty()
    }
}

/// The chats with one more message, of which the last ones are kept.
pub open spec fn chatted(
    pre: Map<u64, Vec<ChatItem>>,
    post: Map<u64, Vec<ChatItem>>,
    id: DeviceId,
    stamp: Seq<char>,
    mine: bool,
    text: Seq<char>,
    system: bool,
) -> bool {
    let k = engine::dk(id);
    let chat = chat_of(post, id);
    &&& post == pre.insert(k, post[k])
    &&& chat.len() > 0
    &&& chat == last_of(chat_of(pre, id).push(chat.last()), MAX_CHAT as nat)
    &&& chat.last().stamp@ == stamp
    &&& chat.last().mine == mine
    &&& chat.last().text@ == text
    &&& chat.last().system == system
}

/// The names after a device told its own, if it did.
pub open spec fn with_name(names: Map<u64, String>, id: DeviceId, name: String) -> Map<u64, String> {
    if name@.len() > 0 {
        names.insert(engine::dk(id), name)
    } else {
        names
    }
}

/// What is shown once a connection is up.
pub open spec fn showed_connected(pre: Board, post: Board, c: ConnInfo, now: Seq<char>) -> bool {
    &&& post == (Board {
        names: post.names,
        connected: post.connected,
        log: post.log,
        selected: post.selected,
        ..pre
    })
    &&& post.names@ == with_name(pre.names@, c.device, c.name)
    &&& post.connected@ == pre.connected@.insert(engine::dk(c.device), c.paired)
    &&& if c.paired {
        &&& logged(
            pre.log@,
            post.log@,
            now,
            "Установлено защищённое соединение с "@ + shown_name(post.names@, c.device),
            Tone::Good,
        )
        &&& post.selected == match pre.selected {
            Some(d) => Some(d),
            None => Some(c.device),
        }
    } else {
        post.log == pre.log && post.selected == pre.selected
    }
}

/// What is shown once a pairing is over.
pub open spec fn showed_pairing(
    pre: Board,
    post: Board,
    device: DeviceId,
    accepted: bool,
    now: Seq<char>,
) -> bool {
    &&& post == (Board {
        pairing: post.pairing,
        log: post.log,
        selected: post.selected,
        ..pre
    })
    &&& post.pairing == match pre.pairing {
        Some(p) => if p.device == device {
            None
        } else {
            Some(p)
        },
        None => None,
    }
    &&& if accepted {
        &&& logged(
            pre.log@,
            post.log@,
            now,
            "Устройство "@ + shown_name(pre.names@, device) + " сопряжено"@,
            Tone::Good,
        )
        &&& post.selected == Some(device)
    } else {
        &&& logged(
            pre.log@,
            post.log@,
            now,
            "Сопряжение с "@ + shown_name(pre.names@, device) + " отклонено"@,
            Tone::Warning,
        )
        &&& post.selected == pre.selected
    }
}

/// Nobody in particular.
pub open spec fn is_nobody(d: DeviceId) -> bool {
    forall|i: int| 0 <= i < 8 ==> #[trigger] d.0@[i] == 0
}

/// Whose transfer one is taken for: that of the selected device.
pub open spec fn is_presumed_peer(b: Board, d: DeviceId) -> bool {
    match b.selected {
        Some(s) => d == s,
        None => is_nobody(d),
    }
}

/// What is shown of a transfer that goes on.
pub open spec fn showed_progress(
    pre: Board,
    post: Board,
    id: TransferId,
    done: u64,
    total: u64,
    incoming: bool,
) -> bool {
    let k = engine::tk(id);
    let row = post.transfers@[k];
    &&& post == (Board { transfers: post.transfers, ..pre })
    &&& post.transfers@ == pre.transfers@.insert(k, row)
    &&& if pre.transfers@.contains_key(k) {
        row == (TransferRow { done, size: total, ..pre.transfers@[k] })
    } else {
        &&& row.id == id
        &&& row.name@.len() == 0
        &&& row.size == total
        &&& row.done == done
        &&& row.incoming == incoming
        &&& is_presumed_peer(pre, row.peer)
        &&& !row.finished
        &&& row.error is None
        &&& row.path is None
    }
}

/// What the user reads of a transfer that is over.
pub open spec fn end_text(name: Seq<char>, path: Option<String>, error: Option<String>) -> Seq<
    char,
> {
    match error {
        Some(e) => "✖ Файл «"@ + name + "» не передан: "@ + e@,
        None => match path {
            Some(p) => "✔ Файл «"@ + name + "» сохранён: "@ + p@,
            None => "✔ Файл «"@ + name + "» отправлен"@,
        },
    }
}

/// What is shown of a transfer that is over.
pub open spec fn showed_end(
    pre: Board,
    post: Board,
    id: TransferId,
    incoming: bool,
    name: String,
    path: Option<String>,
    error: Option<String>,
    now: Seq<char>,
) -> bool {
    let k = engine::tk(id);
    let row = post.transfers@[k];
    &&& post == (Board { transfers: post.transfers, log: post.log, chats: post.chats, ..pre })
    &&& post.transfers@ == pre.transfers@.insert(k, row)
    &&& row.id == id
    &&& row.name == name
    &&& row.size == 0
    &&& row.done == 0
    &&& row.incoming == incoming
    &&& if pre.transfers@.contains_key(k) {
        row.peer == pre.transfers@[k].peer
    } else {
        is_presumed_peer(pre, row.peer)
    }
    &&& row.finished
    &&& row.error == error
    &&& row.path == path
    &&& logged(
        pre.log@,
        post.log@,
        now,
        end_text(name@, path, error),
        if error is Some {
            Tone::Bad
        } else {
            Tone::Good
        },
    )
    &&& chatted(
        pre.chats@,
        post.chats@,
        row.peer,
        now,
        !incoming,
        end_text(name@, path, error),
        true,
    )
}

/// What an event changes of what is shown. `now` is the time of day, `sent`
/// that of a text, `shown` the address of a peer, each as a text.
pub open spec fn applied(
    pre: Board,
    post: Board,
    ev: EngineEvent,
    now: Seq<char>,
    sent: Seq<char>,
    shown: Seq<char>,
) -> bool {
    match ev {
        EngineEvent::PeerDiscovered(p) => {
            &&& post == (Board { names: post.names, log: post.log, ..pre })
            &&& post.names@ == pre.names@.insert(engine::dk(p.device), p.name)
            &&& logged(
                pre.log@,
                post.log@,
                now,
                "Найдено устройство: "@ + p.name@ + " ("@ + shown + ")"@,
                Tone::Dim,
            )
        },
        EngineEvent::PeerLost(id) => {
            &&& post == (Board { log: post.log, ..pre })
            &&& logged(
                pre.log@,
                post.log@,
                now,
                "Устройство "@ + shown_name(pre.names@, id) + " пропало из сети"@,
                Tone::Dim,
            )
        },
        EngineEvent::Connected(c) => showed_connected(pre, post, c, now),
        EngineEvent::Disconnected { device, reason } => {
            &&& post == (Board { connected: post.connected, log: post.log, ..pre })
            &&& post.connected@ == pre.connected@.remove(engine::dk(device))
            &&& logged(
                pre.log@,
                post.log@,
                now,
                "Соединение с "@ + shown_name(pre.names@, device) + " закрыто: "@ + reason@,
                Tone::Dim,
            )
        },
        EngineEvent::PairingRequired {
            device,
            name,
            fingerprint,
            sas,
            addr,
            remote_initiated,
        } => {
            &&& post == (Board { names: post.names, pairing: post.pairing, ..pre })
            &&& post.names@ == with_name(pre.names@, device, name)
            &&& post.pairing matches Some(p) && p.device == device && p.name@ == shown_name(
                post.names@,
                device,
            ) && p.fingerprint == fingerprint && p.sas == sas && p.addr == addr
                && p.remote_initiated == remote_initiated
        },
        EngineEvent::PairingFinished { device, accepted } => showed_pairing(
            pre,
            post,
            device,
            accepted,
            now,
        ),
        EngineEvent::TextReceived { from, text, .. } => {
            &&& post == (Board { chats: post.chats, ..pre })
            &&& chatted(pre.chats@, post.chats@, from, sent, false, text@, false)
        },
        EngineEvent::TextSent { to, text, .. } => {
            &&& post == (Board { chats: post.chats, ..pre })
            &&& chatted(pre.chats@, post.chats@, to, sent, true, text@, false)
        },
        EngineEvent::OfferReceived { from, transfer, name, size } => {
            &&& post == (Board { offers: post.offers, ..pre })
            &&& post.offers@ == pre.offers@.push(OfferPrompt { transfer, from, name, size })
        },
        EngineEvent::TransferProgress { transfer, done, total, incoming } => showed_progress(
            pre,
            post,
            transfer,
            done,
            total,
            incoming,
        ),
        EngineEvent::TransferFinished { transfer, incoming, name, path, error } => showed_end(
            pre,
            post,
            transfer,
            incoming,
            name,
            path,
            error,
            now,
        ),
        EngineEvent::TrustChanged => post == pre,
        EngineEvent::Notice(m) => {
            &&& post == (Board { log: post.log, ..pre })
            &&& logged(pre.log@, post.log@, now, m@, Tone::Dim)
        },
        EngineEvent::Error(m) => {
            &&& post == (Board { log: post.log, ..pre })
            &&& logged(pre.log@, post.log@, now, m@, Tone::Bad)
        },
    }
}

/// Three texts, one behind the other.
fn sentence(a: &str, b: &str, c: &str) -> (r: String)
    ensures
        r@ == a@ + b@ + c@,
{
    let mut r = a.to_string();
    r.append(b);
    r.append(c);
    r
}

/// See [`end_text`].
fn end_message(name: &str, path: &Option<String>, error: &Option<String>) -> (r: String)
    ensures
        r@ == end_text(name@, *path, *error),
{
    match error {
        Some(e) => {
            let mut r = sentence("✖ Файл «", name, "» не передан: ");
            r.append(e.as_str());
            r
        },
        None => match path {
            Some(p) => {
                let mut r = sentence("✔ Файл «", name, "» сохранён: ");
                r.append(p.as_str());
                r
            },
            None => sentence("✔ Файл «", name, "» отправлен"),
        },
    }
}

/// Drops the first ones until at most `n` are left.
fn keep_last<T>(v: &mut Vec<T>, n: usize)
    ensures
        final(v)@ == last_of(old(v)@, n as nat),
{
    let ghost all = v@;
    proof {
        assert(all.skip(0) =~= all);
    }
    while v.len() > n
        invariant
            v@.len() <= all.len(),
            v@ == all.skip(all.len() - v@.len()),
            all.len() > n ==> v@.len() >= n,
            all.len() <= n ==> v@ == all,
        decreases v.len(),
    {
        v.remove(0);
        proof {
            assert(v@ =~= all.skip(all.len() - v@.len()));
        }
    }
}

impl Board {
    /// A board on which nothing happened yet.
    pub fn new() -> (r: Self)
        ensures
            r.selected is None,
            r.chats@ == Map::<u64, Vec<ChatItem>>::empty(),
            r.names@ == Map::<u64, String>::empty(),
            r.connected@ == Map::<u64, bool>::empty(),
            r.pairing is None,
            r.offers@.len() == 0,
            r.transfers@ == Map::<u128, TransferRow>::empty(),
            r.log@.len() == 0,
    {
        Board {
            selected: None,
            chats: BTreeMap::new(),
            names: BTreeMap::new(),
            connected: BTreeMap::new(),
            pairing: None,
            offers: Vec::new(),
            transfers: BTreeMap::new(),
            log: Vec::new(),
        }
    }

    /// Adds a line to the log; see [`logged`].
    pub fn note(&mut self, text: &str, tone: Tone, now: &str)
        ensures
            *final(self) == (Board { log: final(self).log, ..*old(self) }),
            logged(old(self).log@, final(self).log@, now@, text@, tone),
    {
        let line = LogLine { text: sentence(now, "  ", text), tone };
        let ghost added = line;
        self.log.push(line);
        keep_last(&mut self.log, MAX_LOG);
        proof {
            assert(self.log@.last() == added);
        }
    }

    /// Adds a message to the chat with a device; see [`chatted`].
    pub fn push_chat(&mut self, device: DeviceId, item: ChatItem)
        ensures
            *final(self) == (Board { chats: final(self).chats, ..*old(self) }),
            chatted(
                old(self).chats@,
                final(self).chats@,
                device,
                item.stamp@,
                item.mine,
                item.text@,
                item.system,
            ),
    {
        let ghost pre = self.chats@;
        let k: u64 = device.key();
        let mut chat = match self.chats.remove(&k) {
            Some(c) => c,
            None => Vec::new(),
        };
        proof {
            assert(chat@ =~= chat_of(pre, device));
        }
        chat.push(item);
        keep_last(&mut chat, MAX_CHAT);
        let ghost held = chat;
        self.chats.insert(k, chat);
        proof {
            assert(self.chats@ =~= pre.insert(k, held));
            assert(held@.last() == item);
        }
    }

    /// See [`shown_name`].
    pub fn name_of(&self, id: DeviceId) -> (r: String)
        ensures
            r@ == shown_name(self.names@, id),
    {
        match self.names.get(&id.key()) {
            Some(n) => if n.as_str().is_empty() {
                id.text()
            } else {
                n.clone()
            },
            None => id.text(),
        }
    }

    /// Notes the name that a device told, if it did; see [`with_name`].
    fn learn_name(&mut self, id: DeviceId, name: &String)
        ensures
            *final(self) == (Board { names: final(self).names, ..*old(self) }),
            final(self).names@ == with_name(old(self).names@, id, *name),
    {
        if !name.as_str().is_empty() {
            self.names.insert(id.key(), name.clone());
        }
    }

    /// See [`is_presumed_peer`].
    fn presumed_peer(&self) -> (r: DeviceId)
        ensures
            is_presumed_peer(*self, r),
    {
        match self.selected {
            Some(d) => d,
            None => DeviceId([0u8; 8]),
        }
    }

    fn on_connected(&mut self, c: &ConnInfo, now: &str)
        ensures
            showed_connected(*old(self), *final(self), *c, now@),
    {
        self.learn_name(c.device, &c.name);
        self.connected.insert(c.device.key(), c.paired);
        if c.paired {
            let n = self.name_of(c.device);
            let line = sentence("Установлено защищённое соединение с ", n.as_str(), "");
            proof {
                reveal_strlit("");
                assert(line@ =~= "Установлено защищённое соединение с "@ + n@);
            }
            self.note(line.as_str(), Tone::Good, now);
            if self.selected.is_none() {
                self.selected = Some(c.device);
            }
        }
    }

    fn on_pairing_finished(&mut self, device: DeviceId, accepted: bool, now: &str)
        ensures
            showed_pairing(*old(self), *final(self), device, accepted, now@),
    {
        let answered = match &self.pairing {
            Some(p) => engine::same_device(p.device, device),
            None => false,
        };
        if answered {
            self.pairing = None;
        }
        let n = self.name_of(device);
        if accepted {
            let line = sentence("Устройство ", n.as_str(), " сопряжено");
            self.note(line.as_str(), Tone::Good, now);
            self.selected = Some(device);
        } else {
            let line = sentence("Сопряжение с ", n.as_str(), " отклонено");
            self.note(line.as_str(), Tone::Warning, now);
        }
    }

    fn on_progress(&mut self, id: TransferId, done: u64, total: u64, incoming: bool)
        ensures
            showed_progress(*old(self), *final(self), id, done, total, incoming),
    {
        let ghost pre = *self;
        let k: u128 = id.key();
        let row = match self.transfers.remove(&k) {
            Some(row) => {
                let mut row = row;
                row.done = done;
                row.size = total;
                row
            },
            None => TransferRow {
                id,
                name: String::new(),
                size: total,
                done,
                incoming,
                peer: self.presumed_peer(),
                finished: false,
                error: None,
                path: None,
            },
        };
        let ghost entered = row;
        self.transfers.insert(k, row);
        proof {
            assert(self.transfers@ =~= pre.transfers@.insert(k, entered));
        }
    }

    fn on_finished(
        &mut self,
        id: TransferId,
        incoming: bool,
        name: String,
        path: Option<String>,
        error: Option<String>,
        now: &str,
    )
        ensures
            showed_end(*old(self), *final(self), id, incoming, name, path, error, now@),
    {
        let ghost pre = *self;
        let k: u128 = id.key();
        let peer = match self.transfers.get(&k) {
            Some(t) => t.peer,
            None => self.presumed_peer(),
        };
        let text = end_message(name.as_str(), &path, &error);
        let tone = if error.is_some() {
            Tone::Bad
        } else {
            Tone::Good
        };
        let row = TransferRow {
            id,
            name,
            size: 0,
            done: 0,
            incoming,
            peer,
            finished: true,
            error,
            path,
        };
        let ghost entered = row;
        self.transfers.insert(k, row);
        proof {
            assert(self.transfers@ == pre.transfers@.insert(k, entered));
            assert(self.transfers@[k] == entered);
        }
        self.note(text.as_str(), tone, now);
        self.push_chat(
            peer,
            ChatItem { stamp: now.to_string(), mine: !incoming, text, system: true },
        );
    }

    /// Shows an event; see [`applied`].
    pub fn apply(&mut self, ev: EngineEvent, now: &str, sent: &str, shown: &str)
        ensures
            applied(*old(self), *final(self), ev, now@, sent@, shown@),
    {
        match ev {
            EngineEvent::PeerDiscovered(p) => {
                let mut line = sentence("Найдено устройство: ", p.name.as_str(), " (");
                line.append(shown);
                line.append(")");
                self.names.insert(p.device.key(), p.name);
                self.note(line.as_str(), Tone::Dim, now);
            },
            EngineEvent::PeerLost(id) => {
                let n = self.name_of(id);
                let line = sentence("Устройство ", n.as_str(), " пропало из сети");
                self.note(line.as_str(), Tone::Dim, now);
            },
            EngineEvent::Connected(c) => {
                self.on_connected(&c, now);
            },
            EngineEvent::Disconnected { device, reason } => {
                let ghost pre = *self;
                self.connected.remove(&device.key());
                proof {
                    assert(self.connected@ =~= pre.connected@.remove(engine::dk(device)));
                }
                let n = self.name_of(device);
                let mut line = sentence("Соединение с ", n.as_str(), " закрыто: ");
                line.append(reason.as_str());
                self.note(line.as_str(), Tone::Dim, now);
            },
            EngineEvent::PairingRequired {
                device,
                name,
                fingerprint,
                sas,
                addr,
                remote_initiated,
            } => {
                self.learn_name(device, &name);
                let name = self.name_of(device);
                self.pairing = Some(
                    PairPrompt { device, name, fingerprint, sas, addr, remote_initiated },
                );
            },
            EngineEvent::PairingFinished { device, accepted } => {
                self.on_pairing_finished(device, accepted, now);
            },
            EngineEvent::TextReceived { from, text, .. } => {
                self.push_chat(
                    from,
                    ChatItem { stamp: sent.to_string(), mine: false, text, system: false },
                );
            },
            EngineEvent::TextSent { to, text, .. } => {
                self.push_chat(
                    to,
                    ChatItem { stamp: sent.to_string(), mine: true, text, system: false },
                );
            },
            EngineEvent::OfferReceived { from, transfer, name, size } => {
                self.offers.push(OfferPrompt { transfer, from, name, size });
            },
            EngineEvent::TransferProgress { transfer, done, total, incoming } => {
                self.on_progress(transfer, done, total, incoming);
            },
            EngineEvent::TransferFinished { transfer, incoming, name, path, error } => {
                self.on_finished(transfer, incoming, name, path, error, now);
            },
            EngineEvent::TrustChanged => {},
            EngineEvent::Notice(m) => {
                self.note(m.as_str(), Tone::Dim, now);
            },
            EngineEvent::Error(m) => {
                self.note(m.as_str(), Tone::Bad, now);
            },
        }
    }

    /// The user answered the pairing prompt: whose it was, if there was one.
    pub fn answer_pairing(&mut self) -> (r: Option<DeviceId>)
        ensures
            *final(self) == (Board { pairing: None, ..*old(self) }),
            r == match old(self).pairing {
                Some(p) => Some(p.device),
                None => None,
            },
    {
        let device = match &self.pairing {
            Some(p) => Some(p.device),
            None => None,
        };
        self.pairing = None;
        device
    }

    /// The user answered the first offer: which it was, if there was one. What
    /// is accepted shows up among the transfers.
    pub fn answer_offer(&mut self, accept: bool) -> (r: Option<TransferId>)
        ensures
            answered_offer(*old(self), *final(self), accept, r),
    {
        if self.offers.len() == 0 {
            return None;
        }
        let o = self.offers.remove(0);
        let id = o.transfer;
        if accept {
            let k: u128 = id.key();
            let row = TransferRow {
                id,
                name: o.name,
                size: o.size,
                done: 0,
                incoming: true,
                peer: o.from,
                finished: false,
                error: None,
                path: None,
            };
            self.transfers.insert(k, row);
        }
        Some(id)
    }
}

/// See [`Board::answer_offer`].
pub open spec fn answered_offer(
    pre: Board,
    post: Board,
    accept: bool,
    r: Option<TransferId>,
) -> bool {
    if pre.offers@.len() == 0 {
        post == pre && r is None
    } else {
        let o = pre.offers@[0];
        &&& r == Some(o.transfer)
        &&& post == (Board { offers: post.offers, transfers: post.transfers, ..pre })
        &&& post.offers@ == pre.offers@.remove(0)
        &&& post.transfers@ == if accept {
            pre.transfers@.insert(
                engine::tk(o.transfer),
                TransferRow {
                    id: o.transfer,
                    name: o.name,
                    size: o.size,
                    done: 0,
                    incoming: true,
                    peer: o.from,
                    finished: false,
                    error: None,
                    path: None,
                },
            )
        } else {
            pre.transfers@
        }
    }
}

impl Board {
    /// No more is kept than can be shown.
    pub open spec fn wf(&self) -> bool {
        &&& self.log@.len() <= MAX_LOG
        &&& forall|k: u64| #[trigger]
            self.chats@.contains_key(k) ==> self.chats@[k]@.len() <= MAX_CHAT
        &&& forall|k: u128| #[trigger]
            self.transfers@.contains_key(k) ==> engine::tk(self.transfers@[k].id) == k
    }
}

/// The log and the chats keep their bounds, whatever happens.
pub proof fn law_board_keeps_its_bounds(
    pre: Board,
    post: Board,
    ev: EngineEvent,
    now: Seq<char>,
    sent: Seq<char>,
    shown: Seq<char>,
)
    requires
        pre.wf(),
        applied(pre, post, ev, now, sent, shown),
    ensures
        post.wf(),
{
    assert forall|k: u64| #[trigger] post.chats@.contains_key(k) implies post.chats@[k]@.len()
        <= MAX_CHAT by {
        if !pre.chats@.contains_key(k) || post.chats@[k] != pre.chats@[k] {
            if let EngineEvent::TransferFinished { transfer, .. } = ev {
                assert(k == engine::dk(post.transfers@[engine::tk(transfer)].peer));
            }
        }
    }
}

/// Nothing that happens answers a prompt for the user: a pairing prompt leaves
/// only when its pairing is over or another takes its place, and no offer
/// leaves.
pub proof fn law_prompts_wait_for_the_user(
    pre: Board,
    post: Board,
    ev: EngineEvent,
    now: Seq<char>,
    sent: Seq<char>,
    shown: Seq<char>,
)
    requires
        applied(pre, post, ev, now, sent, shown),
    ensures
        pre.offers@.is_prefix_of(post.offers@),
        pre.pairing matches Some(p) ==> post.pairing == Some(p) || ev is PairingRequired || (
        ev matches EngineEvent::PairingFinished { device, .. } && device == p.device),
{
}

} // verus!
