//! The lists of devices and transfers.

use vstd::prelude::*;
use vstd::string::*;
use crate::board::{Board, TransferRow};
use crate::bytes;
use crate::codec;
use crate::engine;
use crate::engine::table;
use crate::engine::{ConnInfo, PeerInfo};
use crate::security::fingerprint;
use crate::security::fingerprint::DeviceId;
use crate::security::trust::TrustedDevice;

verus! {

broadcast use vstd::laws_cmp::group_laws_cmp;

/// Finished transfers that are shown.
pub const SHOWN_FINISHED: usize = 5;

/// The mark in front of a device.
#[derive(Clone, Copy, PartialEq, Eq, Debug, Structural)]
pub enum Dot {
    Blocked,
    Connected,
    Online,
    Offline,
}

/// What the button behind a device does.
#[derive(Clone, Copy, PartialEq, Eq, Debug, Structural)]
pub enum Button {
    Disconnect,
    Connect,
    Pair,
    Hidden,
}

/// What is said of the connection to a device.
#[derive(Clone, Copy, PartialEq, Eq, Debug, Structural)]
pub enum Status {
    Paired,
    Unpaired,
    Offline,
}

/// A device in a list.
#[derive(Debug)]
pub struct Row {
    pub id: DeviceId,
    pub label: String,
    pub dot: Dot,
    pub button: Button,
    pub selected: bool,
}

pub open spec fn dot_of(online: bool, connected: bool, blocked: bool) -> Dot {
    if blocked {
        Dot::Blocked
    } else if connected {
        Dot::Connected
    } else if online {
        Dot::Online
    } else {
        Dot::Offline
    }
}

pub open spec fn button_of(online: bool, connected: bool, blocked: bool, paired: bool) -> Button {
    if connected {
        Button::Disconnect
    } else if online && !blocked {
        if paired {
            Button::Connect
        } else {
            Button::Pair
        }
    } else {
        Button::Hidden
    }
}

/// How a device is listed.
pub open spec fn is_row(
    r: Row,
    b: Board,
    id: DeviceId,
    name: Seq<char>,
    online: bool,
    connected: bool,
    blocked: bool,
    paired: bool,
) -> bool {
    &&& r.id == id
    &&& r.label@ == if name.len() == 0 {
        codec::hex(id.0@)
    } else {
        name
    }
    &&& r.dot == dot_of(online, connected, blocked)
    &&& r.button == button_of(online, connected, blocked, paired)
    &&& r.selected == (b.selected == Some(id))
}

/// The device announces itself.
pub open spec fn is_online(peers: Seq<PeerInfo>, id: DeviceId) -> bool {
    exists|i: int| 0 <= i < peers.len() && (#[trigger] peers[i]).device == id
}

/// There is a connection to the device; with `paired`, an authorised one.
pub open spec fn is_linked(conns: Seq<ConnInfo>, id: DeviceId, paired: bool) -> bool {
    exists|i: int|
        0 <= i < conns.len() && (#[trigger] conns[i]).device == id && (paired ==> conns[i].paired)
}

/// How a trusted device is listed.
pub open spec fn is_trusted_row(
    r: Row,
    b: Board,
    d: TrustedDevice,
    peers: Seq<PeerInfo>,
    conns: Seq<ConnInfo>,
) -> bool {
    &&& d.spec_key() matches Some(k) && r.id.0@ == fingerprint::device_bytes(k)
    &&& is_row(
        r,
        b,
        r.id,
        d.name@,
        is_online(peers, r.id),
        is_linked(conns, r.id, true),
        d.blocked,
        true,
    )
}

/// How the first `n` trusted devices are listed: those whose keys can be read.
pub open spec fn lists_trusted(
    b: Board,
    ds: Seq<TrustedDevice>,
    peers: Seq<PeerInfo>,
    conns: Seq<ConnInfo>,
    n: nat,
    r: Seq<Row>,
) -> bool
    decreases n,
{
    if n == 0 {
        r.len() == 0
    } else if ds[n - 1].spec_key() is Some {
        &&& r.len() > 0
        &&& is_trusted_row(r.last(), b, ds[n - 1], peers, conns)
        &&& lists_trusted(b, ds, peers, conns, (n - 1) as nat, r.drop_last())
    } else {
        lists_trusted(b, ds, peers, conns, (n - 1) as nat, r)
    }
}

/// How the first `n` peers are listed: those that are not paired.
pub open spec fn lists_unknown(
    b: Board,
    peers: Seq<PeerInfo>,
    conns: Seq<ConnInfo>,
    n: nat,
    r: Seq<Row>,
) -> bool
    decreases n,
{
    if n == 0 {
        r.len() == 0
    } else if !peers[n - 1].paired {
        let p = peers[n - 1];
        &&& r.len() > 0
        &&& is_row(
            r.last(),
            b,
            p.device,
            p.name@,
            true,
            is_linked(conns, p.device, false),
            false,
            false,
        )
        &&& lists_unknown(b, peers, conns, (n - 1) as nat, r.drop_last())
    } else {
        lists_unknown(b, peers, conns, (n - 1) as nat, r)
    }
}

/// The names after those of the first `n` trusted devices were noted.
pub open spec fn names_with_trusted(names: Map<u64, String>, ds: Seq<TrustedDevice>, n: nat) -> Map<
    u64,
    String,
>
    decreases n,
{
    if n == 0 {
        names
    } else {
        let before = names_with_trusted(names, ds, (n - 1) as nat);
        let d = ds[n - 1];
        match d.spec_key() {
            Some(k) => if d.name@.len() > 0 {
                before.insert(bytes::be_value(fingerprint::device_bytes(k)) as u64, d.name)
            } else {
                before
            },
            None => before,
        }
    }
}

/// The names after those of the first `n` unpaired peers were noted.
pub open spec fn names_with_unknown(names: Map<u64, String>, peers: Seq<PeerInfo>, n: nat) -> Map<
    u64,
    String,
>
    decreases n,
{
    if n == 0 {
        names
    } else {
        let before = names_with_unknown(names, peers, (n - 1) as nat);
        let p = peers[n - 1];
        if p.paired {
            before
        } else {
            before.insert(engine::dk(p.device), p.name)
        }
    }
}

/// What is said of the connection to a device: what the first one to it is.
pub open spec fn status_of(conns: Seq<ConnInfo>, id: DeviceId) -> Status
    decreases conns.len(),
{
    if conns.len() == 0 {
        Status::Offline
    } else if conns[0].device == id {
        if conns[0].paired {
            Status::Paired
        } else {
            Status::Unpaired
        }
    } else {
        status_of(conns.skip(1), id)
    }
}

fn any_online(peers: &Vec<PeerInfo>, id: DeviceId) -> (r: bool)
    ensures
        r == is_online(peers@, id),
{
    let mut i: usize = 0;
    while i < peers.len()
        invariant
            i <= peers@.len(),
            forall|j: int| 0 <= j < i ==> (#[trigger] peers@[j]).device != id,
        decreases peers.len() - i,
    {
        if engine::same_device(peers[i].device, id) {
            return true;
        }
        i = i + 1;
    }
    false
}

fn any_linked(conns: &Vec<ConnInfo>, id: DeviceId, paired: bool) -> (r: bool)
    ensures
        r == is_linked(conns@, id, paired),
{
    let mut i: usize = 0;
    while i < conns.len()
        invariant
            i <= conns@.len(),
            forall|j: int|
                0 <= j < i ==> !((#[trigger] conns@[j]).device == id && (paired
                    ==> conns@[j].paired)),
        decreases conns.len() - i,
    {
        if engine::same_device(conns[i].device, id) && (!paired || conns[i].paired) {
            return true;
        }
        i = i + 1;
    }
    false
}

/// See [`status_of`].
pub fn status(conns: &Vec<ConnInfo>, id: DeviceId) -> (r: Status)
    ensures
        r == status_of(conns@, id),
{
    let mut i: usize = 0;
    proof {
        assert(conns@.skip(0) =~= conns@);
    }
    while i < conns.len()
        invariant
            i <= conns@.len(),
            status_of(conns@, id) == status_of(conns@.skip(i as int), id),
        decreases conns.len() - i,
    {
        if engine::same_device(conns[i].device, id) {
            return if conns[i].paired {
                Status::Paired
            } else {
                Status::Unpaired
            };
        }
        proof {
            assert(conns@.skip(i as int).skip(1) =~= conns@.skip(i + 1));
        }
        i = i + 1;
    }
    Status::Offline
}

/// The keys of the transfers that go on, in their order.
pub open spec fn going_on(m: Map<u128, TransferRow>, ks: Seq<u128>) -> Seq<u128> {
    ks.filter(|k: u128| !m[k].finished)
}

/// The keys of the transfers that are over, in their order.
pub open spec fn all_over(m: Map<u128, TransferRow>, ks: Seq<u128>) -> Seq<u128> {
    ks.filter(|k: u128| m[k].finished)
}

/// The last of the transfers that are over, the last one first.
pub open spec fn latest(over: Seq<u128>) -> Seq<u128> {
    let n: int = if over.len() < SHOWN_FINISHED {
        over.len() as int
    } else {
        SHOWN_FINISHED as int
    };
    Seq::new(n as nat, |i: int| over[over.len() - 1 - i])
}

impl Board {
    /// How a device is listed; see [`is_row`].
    pub fn device_row(
        &self,
        id: DeviceId,
        name: &str,
        online: bool,
        connected: bool,
        blocked: bool,
        paired: bool,
    ) -> (r: Row)
        ensures
            is_row(r, *self, id, name@, online, connected, blocked, paired),
    {
        let dot = if blocked {
            Dot::Blocked
        } else if connected {
            Dot::Connected
        } else if online {
            Dot::Online
        } else {
            Dot::Offline
        };
        let button = if connected {
            Button::Disconnect
        } else if online && !blocked {
            if paired {
                Button::Connect
            } else {
                Button::Pair
            }
        } else {
            Button::Hidden
        };
        let label = if name.is_empty() {
            id.text()
        } else {
            name.to_string()
        };
        let selected = match self.selected {
            Some(s) => engine::same_device(s, id),
            None => false,
        };
        Row { id, label, dot, button, selected }
    }

    /// The trusted devices as they are listed. Their names are noted.
    pub fn trusted_rows(
        &mut self,
        trusted: &Vec<TrustedDevice>,
        peers: &Vec<PeerInfo>,
        conns: &Vec<ConnInfo>,
    ) -> (r: Vec<Row>)
        ensures
            *final(self) == (Board { names: final(self).names, ..*old(self) }),
            final(self).names@ == names_with_trusted(old(self).names@, trusted@, trusted@.len()),
            lists_trusted(*old(self), trusted@, peers@, conns@, trusted@.len(), r@),
    {
        let ghost pre = *self;
        let mut r: Vec<Row> = Vec::new();
        let mut i: usize = 0;
        while i < trusted.len()
            invariant
                i <= trusted@.len(),
                *self == (Board { names: self.names, ..pre }),
                self.names@ == names_with_trusted(pre.names@, trusted@, i as nat),
                lists_trusted(pre, trusted@, peers@, conns@, i as nat, r@),
            decreases trusted.len() - i,
        {
            let d = &trusted[i];
            if let Some(id) = d.device_id() {
                if !d.name.as_str().is_empty() {
                    self.names.insert(id.key(), d.name.clone());
                }
                let online = any_online(peers, id);
                let connected = any_linked(conns, id, true);
                let ghost head = r@;
                r.push(self.device_row(id, d.name.as_str(), online, connected, d.blocked, true));
                proof {
                    assert(r@.drop_last() =~= head);
                }
            }
            i = i + 1;
        }
        r
    }

    /// The unpaired peers as they are listed. Their names are noted.
    pub fn unknown_rows(&mut self, peers: &Vec<PeerInfo>, conns: &Vec<ConnInfo>) -> (r: Vec<Row>)
        ensures
            *final(self) == (Board { names: final(self).names, ..*old(self) }),
            final(self).names@ == names_with_unknown(old(self).names@, peers@, peers@.len()),
            lists_unknown(*old(self), peers@, conns@, peers@.len(), r@),
    {
        let ghost pre = *self;
        let mut r: Vec<Row> = Vec::new();
        let mut i: usize = 0;
        while i < peers.len()
            invariant
                i <= peers@.len(),
                *self == (Board { names: self.names, ..pre }),
                self.names@ == names_with_unknown(pre.names@, peers@, i as nat),
                lists_unknown(pre, peers@, conns@, i as nat, r@),
            decreases peers.len() - i,
        {
            let p = &peers[i];
            if !p.paired {
                self.names.insert(p.device.key(), p.name.clone());
                let connected = any_linked(conns, p.device, false);
                let ghost head = r@;
                r.push(self.device_row(p.device, p.name.as_str(), true, connected, false, false));
                proof {
                    assert(r@.drop_last() =~= head);
                }
            }
            i = i + 1;
        }
        r
    }

    /// The keys of the transfers that go on.
    pub fn active(&self) -> (r: Vec<u128>)
        ensures
            exists|ks: Seq<u128>| #[trigger]
                table::wide_keys_of(self.transfers@, ks) && r@ == going_on(self.transfers@, ks),
    {
        let all = table::wide_keys(&self.transfers);
        let (going, _) = self.split(&all);
        going
    }

    /// The keys of the transfers that ended last, in the order of their keys
    /// from the end.
    pub fn recent(&self) -> (r: Vec<u128>)
        ensures
            exists|ks: Seq<u128>| #[trigger]
                table::wide_keys_of(self.transfers@, ks) && r@ == latest(
                    all_over(self.transfers@, ks),
                ),
    {
        let all = table::wide_keys(&self.transfers);
        let (_, over) = self.split(&all);
        let mut r: Vec<u128> = Vec::new();
        let mut i: usize = 0;
        while i < SHOWN_FINISHED && i < over.len()
            invariant
                i <= SHOWN_FINISHED,
                i <= over@.len(),
                r@.len() == i,
                forall|j: int| 0 <= j < i ==> #[trigger] r@[j] == over@[over@.len() - 1 - j],
            decreases SHOWN_FINISHED - i,
        {
            r.push(over[over.len() - 1 - i]);
            i = i + 1;
        }
        proof {
            assert(r@ =~= latest(over@));
        }
        r
    }

    /// The transfers that go on and those that are over.
    fn split(&self, all: &Vec<u128>) -> (r: (Vec<u128>, Vec<u128>))
        requires
            table::wide_keys_of(self.transfers@, all@),
        ensures
            r.0@ == going_on(self.transfers@, all@),
            r.1@ == all_over(self.transfers@, all@),
    {
        let mut going: Vec<u128> = Vec::new();
        let mut over: Vec<u128> = Vec::new();
        let mut i: usize = 0;
        proof {
            reveal(Seq::filter);
            assert(all@.take(0) =~= Seq::<u128>::empty());
        }
        while i < all.len()
            invariant
                i <= all@.len(),
                table::wide_keys_of(self.transfers@, all@),
                going@ == going_on(self.transfers@, all@.take(i as int)),
                over@ == all_over(self.transfers@, all@.take(i as int)),
            decreases all.len() - i,
        {
            let k: u128 = all[i];
            proof {
                assert(all@.contains(k));
                assert(self.transfers@.contains_key(k));
                reveal(Seq::filter);
                assert(all@.take(i + 1).drop_last() =~= all@.take(i as int));
                assert(all@.take(i + 1).last() == k);
            }
            if let Some(t) = self.transfers.get(&k) {
                if t.finished {
                    over.push(k);
                } else {
                    going.push(k);
                }
            }
            i = i + 1;
        }
        proof {
            assert(all@.take(all@.len() as int) =~= all@);
        }
        (going, over)
    }

    /// Clears the log and the transfers that are over.
    pub fn clear(&mut self)
        ensures
            *final(self) == (Board {
                log: final(self).log,
                transfers: final(self).transfers,
                ..*old(self)
            }),
            final(self).log@.len() == 0,
            final(self).transfers@ == old(self).transfers@.restrict(
                Set::new(
                    |k: u128|
                        old(self).transfers@.contains_key(k) && !old(self).transfers@[k].finished,
                ),
            ),
    {
        let ghost pre = *self;
        let ghost m = self.transfers@;
        self.log = Vec::new();
        let all = table::wide_keys(&self.transfers);
        let (_, over) = self.split(&all);
        proof {
            assert forall|k: u128| #[trigger] over@.contains(k) <==> m.contains_key(k)
                && m[k].finished by {
                lemma_filter_contains(all@, |x: u128| m[x].finished, k);
                assert(m.contains_key(k) <==> all@.contains(k));
            }
        }
        let mut i: usize = 0;
        while i < over.len()
            invariant
                i <= over@.len(),
                *self == (Board { transfers: self.transfers, log: self.log, ..pre }),
                self.log@.len() == 0,
                m == pre.transfers@,
                forall|k: u128| #[trigger]
                    self.transfers@.contains_key(k) <==> m.contains_key(k) && !over@.take(
                        i as int,
                    ).contains(k),
                forall|k: u128| #[trigger]
                    self.transfers@.contains_key(k) ==> self.transfers@[k] == m[k],
            decreases over.len() - i,
        {
            let k: u128 = over[i];
            let ghost was = self.transfers@;
            self.transfers.remove(&k);
            proof {
                let done = over@.take(i as int);
                let next = over@.take(i + 1);
                assert(next =~= done.push(k));
                assert forall|x: u128| next.contains(x) <==> done.contains(x) || x == k by {
                    if done.contains(x) {
                        let j = choose|j: int| 0 <= j < done.len() && done[j] == x;
                        assert(next[j] == x);
                    }
                    assert(next[i as int] == k);
                }
                assert(self.transfers@ =~= was.remove(k));
            }
            i = i + 1;
        }
        proof {
            assert(over@.take(over@.len() as int) =~= over@);
            assert(self.transfers@ =~= m.restrict(
                Set::new(|k: u128| m.contains_key(k) && !m[k].finished),
            ));
        }
    }
}

/// What a filter keeps.
pub proof fn lemma_filter_contains(s: Seq<u128>, f: spec_fn(u128) -> bool, x: u128)
    ensures
        s.filter(f).contains(x) <==> s.contains(x) && f(x),
    decreases s.len(),
{
    reveal(Seq::filter);
    if s.len() > 0 {
        let rest = s.drop_last();
        lemma_filter_contains(rest, f, x);
        let kept = rest.filter(f);
        let y = s.last();
        assert(s =~= rest.push(y));
        if f(y) {
            assert(s.filter(f) == kept.push(y));
            if kept.contains(x) {
                let j = choose|j: int| 0 <= j < kept.len() && kept[j] == x;
                assert(kept.push(y)[j] == x);
            }
            assert(kept.push(y)[kept.len() as int] == y);
        }
        if rest.contains(x) {
            let j = choose|j: int| 0 <= j < rest.len() && rest[j] == x;
            assert(s[j] == x);
        }
        if s.contains(x) && x != y {
            let j = choose|j: int| 0 <= j < s.len() && s[j] == x;
            assert(rest[j] == x);
        }
        assert(s[s.len() - 1] == y);
    }
}

/// A blocked device offers nothing but to be disconnected, and a device with a
/// connection nothing else.
pub proof fn law_buttons_follow_the_connection(
    online: bool,
    connected: bool,
    blocked: bool,
    paired: bool,
)
    ensures
        connected <==> button_of(online, connected, blocked, paired) is Disconnect,
        blocked && !connected ==> button_of(online, connected, blocked, paired) is Hidden,
        button_of(online, connected, blocked, paired) is Pair ==> !paired,
{
}

} // verus!
