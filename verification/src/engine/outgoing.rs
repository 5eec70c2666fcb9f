//! Outgoing files, and the end of all transfers of a device.

use vstd::prelude::*;
use vstd::string::*;
use crate::engine;
use crate::engine::files;
use crate::engine::table;
use crate::engine::transfer::IncomingTransfer;
use crate::engine::{Action, Engine, OutSignal, Outgoing};
use crate::proto::{IdReason, Message, TransferId};
use crate::security::fingerprint::DeviceId;

verus! {

broadcast use vstd::laws_cmp::group_laws_cmp;

/// The transfers in the table that come from a device.
pub open spec fn from_device(m: Map<u128, IncomingTransfer>, device: DeviceId) -> Set<u128> {
    Set::new(|k: u128| m.contains_key(k) && m[k].from == device)
}

/// In ascending order, exactly the elements of a set.
pub open spec fn lists(ks: Seq<u128>, s: Set<u128>) -> bool {
    &&& forall|i: int, j: int| 0 <= i < j < ks.len() ==> #[trigger] ks[i] < #[trigger] ks[j]
    &&& forall|k: u128| #[trigger] s.contains(k) <==> ks.contains(k)
}

/// How many actions the end of a transfer takes.
pub open spec fn end_len(t: IncomingTransfer) -> int {
    if t.part_path@.len() > 0 {
        2
    } else {
        1
    }
}

/// The actions that end some transfers, one after the other.
pub open spec fn ended(
    m: Map<u128, IncomingTransfer>,
    ks: Seq<u128>,
    reason: Seq<char>,
    acts: Seq<Action>,
) -> bool
    decreases ks.len(),
{
    if ks.len() == 0 {
        acts.len() == 0
    } else {
        let k = ks.last();
        let n = acts.len() - end_len(m[k]);
        &&& n >= 0
        &&& ended(m, ks.drop_last(), reason, acts.take(n))
        &&& files::aborted(m, m.remove(k), m[k].id, reason, acts.skip(n))
    }
}

/// The files sent to a device are to be given up; the others stay.
pub open spec fn give_up(o: Outgoing, device: DeviceId) -> Outgoing {
    if o.to == device {
        Outgoing { cancel: true, ..o }
    } else {
        o
    }
}

/// What a signal for the sender of a file does: it is passed on if the file is
/// being sent.
pub open spec fn signalled(e: Engine, id: TransferId, signal: OutSignal, acts: Seq<Action>) -> bool {
    if e.outgoing@.contains_key(engine::tk(id)) {
        &&& acts.len() == 1
        &&& acts[0] matches Action::Signal { transfer, signal: s } && transfer == id && s == signal
    } else {
        acts.len() == 0
    }
}

/// What cancelling a transfer does. A file that is being sent is given up and,
/// if the receiver may be written to, the receiver is told. A file that is
/// being received is dropped and the sender is told.
pub open spec fn cancelled(pre: Engine, post: Engine, id: TransferId, acts: Seq<Action>) -> bool {
    let k = engine::tk(id);
    if pre.outgoing@.contains_key(k) {
        let o = pre.outgoing@[k];
        &&& post.incoming@ == pre.incoming@
        &&& post.outgoing@ == pre.outgoing@.insert(k, Outgoing { cancel: true, ..o })
        &&& if pre.has_authorised(o.to) {
            acts.len() == 1 && engine::is_file_cancel(acts[0], o.to, id, "отменено отправителем"@)
        } else {
            acts.len() == 0
        }
    } else {
        &&& post.outgoing@ == pre.outgoing@
        &&& if pre.incoming@.contains_key(k) {
            &&& acts.len() > 0
            &&& engine::is_file_cancel(
                acts[0],
                pre.incoming@[k].from,
                id,
                "отменено получателем"@,
            )
            &&& files::aborted(pre.incoming@, post.incoming@, id, "отменено"@, acts.skip(1))
        } else {
            post.incoming@ == pre.incoming@ && acts.len() == 0
        }
    }
}

fn cancel_file(device: DeviceId, id: TransferId, reason: &str) -> (r: Action)
    ensures
        engine::is_file_cancel(r, device, id, reason@),
{
    Action::Send { to: device, msg: Message::FileCancel(IdReason { id, reason: reason.to_string() }) }
}

impl Engine {
    /// Why nothing can be sent to a device, if nothing can: there must be a
    /// connection, and its peer must be authorised.
    pub open spec fn send_refusal(&self, device: DeviceId) -> Option<Seq<char>> {
        if !self.conns@.contains_key(engine::dk(device)) {
            Some("Нет соединения с устройством"@)
        } else if !self.conns@[engine::dk(device)].authorised {
            Some("Устройство ещё не сопряжено"@)
        } else {
            None
        }
    }

    /// Whether something can be sent to a device; see [`Engine::send_refusal`].
    pub fn send_to(&self, device: DeviceId) -> (r: Result<(), String>)
        ensures
            match r {
                Ok(_) => self.send_refusal(device) is None,
                Err(why) => self.send_refusal(device) == Some(why@),
            },
    {
        match self.conns.get(&device.key()) {
            None => Err("Нет соединения с устройством".to_string()),
            Some(c) => if c.authorised {
                Ok(())
            } else {
                Err("Устройство ещё не сопряжено".to_string())
            },
        }
    }

    /// Passes a signal to the sender of a file; see [`signalled`].
    pub fn signal_outgoing(&self, id: TransferId, signal: OutSignal) -> (acts: Vec<Action>)
        ensures
            signalled(*self, id, signal, acts@),
    {
        let mut acts: Vec<Action> = Vec::new();
        if self.outgoing.contains_key(&id.key()) {
            acts.push(Action::Signal { transfer: id, signal });
        }
        acts
    }

    /// Cancels a transfer; see [`cancelled`].
    pub fn cancel_transfer(&mut self, id: TransferId) -> (acts: Vec<Action>)
        requires
            old(self).wf(),
        ensures
            final(self).wf(),
            *final(self) == (Engine {
                incoming: final(self).incoming,
                outgoing: final(self).outgoing,
                ..*old(self)
            }),
            cancelled(*old(self), *final(self), id, acts@),
    {
        let ghost pre = *self;
        let k: u128 = id.key();
        let mut acts: Vec<Action> = Vec::new();
        match self.outgoing.remove(&k) {
            Some(o) => {
                let to = o.to;
                let next = Outgoing { id: o.id, to, name: o.name, size: o.size, cancel: true };
                let ghost entry = next;
                self.outgoing.insert(k, next);
                proof {
                    assert(self.outgoing@ =~= pre.outgoing@.insert(k, entry));
                    assert(self.outgoing@.dom() =~= pre.outgoing@.dom());
                }
                if self.send_to(to).is_ok() {
                    acts.push(cancel_file(to, id, "отменено отправителем"));
                }
                return acts;
            },
            None => {
                proof {
                    assert(self.outgoing@ =~= pre.outgoing@);
                }
            },
        }
        let from = match self.incoming.get(&k) {
            Some(t) => t.from,
            None => return acts,
        };
        acts.push(cancel_file(from, id, "отменено получателем"));
        let rest = self.abort_incoming(id, "отменено");
        let ghost tail = rest@;
        files::extend(&mut acts, rest);
        proof {
            assert(acts@.skip(1) =~= tail);
        }
        acts
    }

    /// The transfers from a device, in the order of their keys.
    fn transfers_from(&self, device: DeviceId) -> (r: Vec<u128>)
        ensures
            lists(r@, from_device(self.incoming@, device)),
    {
        let all = table::wide_keys(&self.incoming);
        let mut r: Vec<u128> = Vec::new();
        let mut i: usize = 0;
        while i < all.len()
            invariant
                i <= all@.len(),
                table::wide_keys_of(self.incoming@, all@),
                forall|a: int, b: int| 0 <= a < b < r@.len() ==> #[trigger] r@[a] < #[trigger] r@[b],
                forall|a: int| 0 <= a < r@.len() ==> all@.take(i as int).contains(#[trigger] r@[a]),
                forall|k: u128| #[trigger]
                    r@.contains(k) <==> all@.take(i as int).contains(k)
                        && self.incoming@[k].from == device,
            decreases all.len() - i,
        {
            let k: u128 = all[i];
            let ghost before = r@;
            proof {
                assert(all@.contains(k));
                assert(self.incoming@.contains_key(k));
            }
            let hit = match self.incoming.get(&k) {
                Some(t) => engine::same_device(t.from, device),
                None => false,
            };
            if hit {
                r.push(k);
            }
            proof {
                let old_part = all@.take(i as int);
                let new_part = all@.take(i + 1);
                assert(new_part =~= old_part.push(k));
                assert forall|a: int, b: int| 0 <= a < b < r@.len() implies #[trigger] r@[a]
                    < #[trigger] r@[b] by {
                    if b == before.len() {
                        assert(old_part.contains(before[a]));
                        let j = choose|j: int| 0 <= j < old_part.len() && old_part[j] == before[a];
                        assert(all@[j] < all@[i as int]);
                    }
                }
                assert forall|x: u128| #[trigger] r@.contains(x) <==> new_part.contains(x)
                    && self.incoming@[x].from == device by {
                    assert(before.contains(x) <==> old_part.contains(x) && self.incoming@[x].from
                        == device);
                    if new_part.contains(x) && x != k {
                        let j = choose|j: int| 0 <= j < new_part.len() && new_part[j] == x;
                        assert(old_part[j] == x);
                    }
                    if old_part.contains(x) {
                        let j = choose|j: int| 0 <= j < old_part.len() && old_part[j] == x;
                        assert(new_part[j] == x);
                    }
                    if before.contains(x) {
                        let j = choose|j: int| 0 <= j < before.len() && before[j] == x;
                        assert(r@[j] == x);
                    }
                    if hit {
                        assert(r@[before.len() as int] == k);
                    }
                    if r@.contains(x) && x != k {
                        let j = choose|j: int| 0 <= j < r@.len() && r@[j] == x;
                        assert(before[j] == x);
                    }
                    assert(new_part[i as int] == k);
                }
                assert forall|a: int| 0 <= a < r@.len() implies new_part.contains(
                    #[trigger] r@[a],
                ) by {
                    assert(r@.contains(r@[a]));
                }
            }
            i = i + 1;
        }
        proof {
            assert(all@.take(all@.len() as int) =~= all@);
            let s = from_device(self.incoming@, device);
            assert forall|k: u128| #[trigger] s.contains(k) <==> r@.contains(k) by {
                assert(self.incoming@.contains_key(k) <==> all@.contains(k));
            }
        }
        r
    }

    /// Ends all transfers of a device: the incoming ones are dropped, the
    /// outgoing ones given up.
    pub fn fail_transfers_for(&mut self, device: DeviceId, reason: &str) -> (acts: Vec<Action>)
        requires
            old(self).wf(),
        ensures
            final(self).wf(),
            *final(self) == (Engine {
                incoming: final(self).incoming,
                outgoing: final(self).outgoing,
                ..*old(self)
            }),
            final(self).incoming@ == old(self).incoming@.remove_keys(
                from_device(old(self).incoming@, device),
            ),
            final(self).outgoing@ == old(self).outgoing@.map_values(
                |o: Outgoing| give_up(o, device),
            ),
            exists|ks: Seq<u128>| #[trigger]
                lists(ks, from_device(old(self).incoming@, device)) && ended(
                    old(self).incoming@,
                    ks,
                    reason@,
                    acts@,
                ),
    {
        let ghost pre = *self;
        let ids = self.transfers_from(device);
        let mut acts: Vec<Action> = Vec::new();
        let mut i: usize = 0;
        proof {
            assert(pre.incoming@.remove_keys(ids@.take(0).to_set()) =~= pre.incoming@);
        }
        while i < ids.len()
            invariant
                i <= ids@.len(),
                pre.wf(),
                self.wf(),
                *self == (Engine { incoming: self.incoming, ..pre }),
                lists(ids@, from_device(pre.incoming@, device)),
                self.incoming@ == pre.incoming@.remove_keys(ids@.take(i as int).to_set()),
                ended(pre.incoming@, ids@.take(i as int), reason@, acts@),
            decreases ids.len() - i,
        {
            let k: u128 = ids[i];
            let ghost done = ids@.take(i as int);
            let ghost next = ids@.take(i + 1);
            proof {
                assert(ids@.contains(k));
                assert(from_device(pre.incoming@, device).contains(k));
                assert(next.drop_last() =~= done);
                if done.to_set().contains(k) {
                    let j = choose|j: int| 0 <= j < done.len() && done[j] == k;
                    assert(ids@[j] < ids@[i as int]);
                }
                assert(self.incoming@.contains_key(k));
            }
            let id = match self.incoming.get(&k) {
                Some(t) => t.id,
                None => return acts,
            };
            let more = self.abort_incoming(id, reason);
            let ghost head = acts@;
            let ghost tail = more@;
            files::extend(&mut acts, more);
            proof {
                assert(engine::tk(id) == k);
                let m = pre.incoming@;
                assert(tail.len() == end_len(m[k]));
                assert(acts@.take(head.len() as int) =~= head);
                assert(acts@.skip(head.len() as int) =~= tail);
                assert(files::aborted(m, m.remove(k), m[k].id, reason@, tail));
                assert(ended(m, next, reason@, acts@));
                assert forall|x: u128| next.to_set().contains(x) <==> done.to_set().contains(x)
                    || x == k by {
                    if next.to_set().contains(x) && x != k {
                        let j = choose|j: int| 0 <= j < next.len() && next[j] == x;
                        assert(done[j] == x);
                    }
                    if done.to_set().contains(x) {
                        let j = choose|j: int| 0 <= j < done.len() && done[j] == x;
                        assert(next[j] == x);
                    }
                    assert(next[i as int] == k);
                }
                assert(self.incoming@ =~= m.remove_keys(next.to_set()));
            }
            i = i + 1;
        }
        proof {
            assert(ids@.take(ids@.len() as int) =~= ids@);
            assert(ids@.to_set() =~= from_device(pre.incoming@, device));
        }
        let ghost mid = *self;
        let outs = table::wide_keys(&self.outgoing);
        let mut j: usize = 0;
        let ghost f = |o: Outgoing| give_up(o, device);
        while j < outs.len()
            invariant
                j <= outs@.len(),
                mid.wf(),
                table::wide_keys_of(mid.outgoing@, outs@),
                f == (|o: Outgoing| give_up(o, device)),
                *self == (Engine { outgoing: self.outgoing, ..mid }),
                self.outgoing@.dom() == mid.outgoing@.dom(),
                forall|a: int|
                    0 <= a < j ==> self.outgoing@[#[trigger] outs@[a]] == f(
                        mid.outgoing@[outs@[a]],
                    ),
                forall|a: int|
                    j <= a < outs@.len() ==> self.outgoing@[#[trigger] outs@[a]]
                        == mid.outgoing@[outs@[a]],
            decreases outs.len() - j,
        {
            let k: u128 = outs[j];
            proof {
                assert(outs@.contains(k));
                assert(mid.outgoing@.contains_key(k));
            }
            let ghost was = self.outgoing@;
            if let Some(o) = self.outgoing.remove(&k) {
                let cancel = o.cancel || engine::same_device(o.to, device);
                let next = Outgoing { id: o.id, to: o.to, name: o.name, size: o.size, cancel };
                self.outgoing.insert(k, next);
                proof {
                    assert(was[k] == mid.outgoing@[k]);
                    assert(self.outgoing@[k] == f(mid.outgoing@[k]));
                    assert(self.outgoing@.dom() =~= was.dom());
                }
            }
            j = j + 1;
        }
        proof {
            assert forall|k: u128| #[trigger] mid.outgoing@.contains_key(k) implies self.outgoing@[k]
                == f(mid.outgoing@[k]) by {
                assert(outs@.contains(k));
                let a = choose|a: int| 0 <= a < outs@.len() && outs@[a] == k;
                assert(self.outgoing@[outs@[a]] == f(mid.outgoing@[outs@[a]]));
            }
            assert(self.outgoing@ =~= pre.outgoing@.map_values(f));
        }
        acts
    }
}

} // verus!
