//! Devices that announce themselves, and what time does to peers, prompts and
//! connections.

use vstd::prelude::*;
use vstd::string::*;
use crate::codec;
use crate::engine;
use crate::engine::table;
use crate::engine::{Action, Conn, Engine, EngineEvent, PeerEntry, PeerInfo, PAIRING_TIMEOUT};
use crate::net::discovery::{DiscoveredPeer, MAX_PEERS, PEER_TTL};
use crate::net::limit;
use crate::proto::Message;
use crate::security::fingerprint::DeviceId;

verus! {

broadcast use vstd::laws_cmp::group_laws_cmp;

/// What is noted of a device that announced itself.
pub open spec fn is_noted(info: PeerInfo, e: Engine, p: DiscoveredPeer) -> bool {
    &&& info.device == p.device_id
    &&& info.name == p.name
    &&& info.platform == p.platform
    &&& info.addr == p.addr
    &&& info.public_key@ == p.public_key@
    &&& info.paired == e.trust.authorises(p.public_key@)
}

/// What an announcement does: it is noted while there is room, and the user is
/// told of a device that was not known.
pub open spec fn announced(
    pre: Engine,
    post: Engine,
    p: DiscoveredPeer,
    now: u64,
    acts: Seq<Action>,
) -> bool {
    let k = engine::dk(p.device_id);
    let known = pre.peers@.contains_key(k);
    if pre.peers@.len() >= MAX_PEERS && !known {
        post.peers@ == pre.peers@ && acts.len() == 0
    } else {
        &&& post.peers@ == pre.peers@.insert(k, post.peers@[k])
        &&& post.peers@[k].last_seen == now
        &&& is_noted(post.peers@[k].info, pre, p)
        &&& if known {
            acts.len() == 0
        } else {
            &&& acts.len() == 1
            &&& acts[0] matches Action::Emit(EngineEvent::PeerDiscovered(info)) && is_noted(
                info,
                pre,
                p,
            )
        }
    }
}

/// A device that has not announced itself for too long.
pub open spec fn silent(p: PeerEntry, now: u64) -> bool {
    limit::spec_elapsed(now, p.last_seen) >= PEER_TTL
}

/// The devices that still announce themselves.
pub open spec fn heard_of(m: Map<u64, PeerEntry>, now: u64) -> Map<u64, PeerEntry> {
    m.restrict(Set::new(|k: u64| m.contains_key(k) && !silent(m[k], now)))
}

/// The actions that tell that devices are gone, one for each.
pub open spec fn told_lost(m: Map<u64, PeerEntry>, gone: Seq<u64>, acts: Seq<Action>) -> bool {
    &&& acts.len() == gone.len()
    &&& forall|i: int|
        0 <= i < gone.len() ==> #[trigger] acts[i] == Action::Emit(
            EngineEvent::PeerLost(m[gone[i]].info.device),
        )
}

/// The keys of the devices that are silent, in their order.
pub open spec fn silent_keys(m: Map<u64, PeerEntry>, ks: Seq<u64>, now: u64) -> Seq<u64> {
    ks.filter(|k: u64| silent(m[k], now))
}

/// A pairing prompt that nobody has answered for too long.
pub open spec fn overdue(c: Conn, now: u64) -> bool {
    !c.authorised && (c.prompted_at matches Some(t) && limit::spec_elapsed(now, t)
        > PAIRING_TIMEOUT)
}

/// The keys of the connections whose prompts are overdue, in their order.
pub open spec fn overdue_keys(m: Map<u64, Conn>, ks: Seq<u64>, now: u64) -> Seq<u64> {
    ks.filter(|k: u64| overdue(m[k], now))
}

/// The two actions that end a pairing nobody answered: the connection is closed
/// and the user is told.
pub open spec fn given_up(a: Action, b: Action, device: DeviceId) -> bool {
    &&& a == Action::Close { device }
    &&& engine::is_notice(
        b,
        "Сопряжение с "@ + codec::hex(device.0@) + " отменено по тайм-ауту"@,
    )
}

/// The actions that end some pairings, two for each.
pub open spec fn told_overdue(m: Map<u64, Conn>, late: Seq<u64>, acts: Seq<Action>) -> bool {
    &&& acts.len() == 2 * late.len()
    &&& forall|i: int|
        #![trigger late[i]]
        0 <= i < late.len() ==> given_up(acts[2 * i], acts[2 * i + 1], m[late[i]].device)
}

/// One keepalive for each connection.
pub open spec fn pinged(m: Map<u64, Conn>, ks: Seq<u64>, acts: Seq<Action>) -> bool {
    &&& acts.len() == ks.len()
    &&& forall|i: int|
        0 <= i < ks.len() ==> #[trigger] acts[i] == (Action::Send {
            to: m[ks[i]].device,
            msg: Message::Ping,
        })
}

impl Engine {
    /// A device announces itself; see [`announced`].
    pub fn on_beacon(&mut self, p: DiscoveredPeer, now: u64) -> (acts: Vec<Action>)
        requires
            old(self).wf(),
            engine::short_key(p.public_key@),
        ensures
            final(self).wf(),
            *final(self) == (Engine { peers: final(self).peers, ..*old(self) }),
            announced(*old(self), *final(self), p, now, acts@),
    {
        let ghost pre = *self;
        let paired = self.trust.is_authorised(p.public_key.as_slice());
        let info = PeerInfo {
            device: p.device_id,
            name: p.name,
            platform: p.platform,
            addr: p.addr,
            public_key: p.public_key,
            paired,
        };
        let k: u64 = info.device.key();
        let mut acts: Vec<Action> = Vec::new();
        let known = self.peers.contains_key(&k);
        if self.peers.len() >= MAX_PEERS && !known {
            return acts;
        }
        let entry = PeerEntry { info: info.copy(), last_seen: now };
        let ghost entered = entry;
        self.peers.insert(k, entry);
        proof {
            assert(self.peers@ == pre.peers@.insert(k, entered));
            if known {
                assert(self.peers@.dom() =~= pre.peers@.dom());
            }
        }
        if !known {
            acts.push(Action::Emit(EngineEvent::PeerDiscovered(info)));
        }
        acts
    }

    /// Forgets the devices that have not announced themselves for too long and
    /// tells the user of each.
    pub fn expire_peers(&mut self, now: u64) -> (acts: Vec<Action>)
        requires
            old(self).wf(),
        ensures
            final(self).wf(),
            *final(self) == (Engine { peers: final(self).peers, ..*old(self) }),
            final(self).peers@ == heard_of(old(self).peers@, now),
            exists|ks: Seq<u64>| #[trigger]
                table::keys_of(old(self).peers@, ks) && told_lost(
                    old(self).peers@,
                    silent_keys(old(self).peers@, ks, now),
                    acts@,
                ),
    {
        let ghost pre = *self;
        let ghost m = self.peers@;
        let all = table::keys(&self.peers);
        let mut acts: Vec<Action> = Vec::new();
        let mut i: usize = 0;
        proof {
            reveal(Seq::filter);
            assert(all@.take(0) =~= Seq::<u64>::empty());
        }
        while i < all.len()
            invariant
                i <= all@.len(),
                pre.wf(),
                m == pre.peers@,
                table::keys_of(m, all@),
                *self == (Engine { peers: self.peers, ..pre }),
                self.peers@.dom().finite(),
                self.peers@.len() <= m.len(),
                forall|j: int|
                    0 <= j < i ==> (self.peers@.contains_key(#[trigger] all@[j]) <==> !silent(
                        m[all@[j]],
                        now,
                    )),
                forall|j: int| i <= j < all@.len() ==> self.peers@.contains_key(#[trigger] all@[j]),
                forall|k: u64| #[trigger]
                    self.peers@.contains_key(k) ==> m.contains_key(k) && self.peers@[k] == m[k],
                told_lost(m, silent_keys(m, all@.take(i as int), now), acts@),
            decreases all.len() - i,
        {
            let k: u64 = all[i];
            let ghost was = self.peers@;
            let ghost before = silent_keys(m, all@.take(i as int), now);
            let ghost head = acts@;
            proof {
                assert(all@.contains(k));
                assert(self.peers@.contains_key(k));
            }
            let gone = match self.peers.get(&k) {
                Some(p) => limit::elapsed(now, p.last_seen) >= PEER_TTL,
                None => false,
            };
            if gone {
                if let Some(p) = self.peers.remove(&k) {
                    acts.push(Action::Emit(EngineEvent::PeerLost(p.info.device)));
                    proof {
                        was.lemma_remove_key_len(k);
                    }
                }
            }
            proof {
                reveal(Seq::filter);
                assert(all@.take(i + 1).drop_last() =~= all@.take(i as int));
                assert(all@.take(i + 1).last() == k);
                let after = silent_keys(m, all@.take(i + 1), now);
                if gone {
                    assert(after =~= before.push(k));
                } else {
                    assert(after =~= before);
                }
                assert forall|j: int| 0 <= j < after.len() implies #[trigger] acts@[j]
                    == Action::Emit(EngineEvent::PeerLost(m[after[j]].info.device)) by {
                    if j < before.len() {
                        assert(acts@[j] == head[j]);
                    }
                }
            }
            i = i + 1;
        }
        proof {
            assert(all@.take(all@.len() as int) =~= all@);
            assert forall|k: u64| #[trigger] m.contains_key(k) implies (self.peers@.contains_key(k)
                <==> !silent(m[k], now)) by {
                assert(all@.contains(k));
                let j = choose|j: int| 0 <= j < all@.len() && all@[j] == k;
                assert(self.peers@.contains_key(all@[j]) <==> !silent(m[all@[j]], now));
            }
            assert(self.peers@ =~= heard_of(m, now));
        }
        acts
    }

    /// Closes the connections whose pairing prompts nobody answered in time and
    /// tells the user of each.
    pub fn expire_pairings(&self, now: u64) -> (acts: Vec<Action>)
        requires
            self.wf(),
        ensures
            exists|ks: Seq<u64>| #[trigger]
                table::keys_of(self.conns@, ks) && told_overdue(
                    self.conns@,
                    overdue_keys(self.conns@, ks, now),
                    acts@,
                ),
    {
        let ghost m = self.conns@;
        let all = table::keys(&self.conns);
        let mut acts: Vec<Action> = Vec::new();
        let mut i: usize = 0;
        proof {
            reveal(Seq::filter);
            assert(all@.take(0) =~= Seq::<u64>::empty());
        }
        while i < all.len()
            invariant
                i <= all@.len(),
                self.wf(),
                m == self.conns@,
                table::keys_of(m, all@),
                told_overdue(m, overdue_keys(m, all@.take(i as int), now), acts@),
            decreases all.len() - i,
        {
            let k: u64 = all[i];
            let ghost before = overdue_keys(m, all@.take(i as int), now);
            let ghost head = acts@;
            proof {
                assert(all@.contains(k));
                assert(m.contains_key(k));
            }
            let mut late = false;
            if let Some(c) = self.conns.get(&k) {
                if !c.authorised {
                    if let Some(t) = c.prompted_at {
                        late = limit::elapsed(now, t) > PAIRING_TIMEOUT;
                    }
                }
                if late {
                    let device = c.device;
                    acts.push(Action::Close { device });
                    let mut notice = "Сопряжение с ".to_string();
                    notice.append(device.text().as_str());
                    notice.append(" отменено по тайм-ауту");
                    acts.push(Action::Emit(EngineEvent::Notice(notice)));
                }
            }
            proof {
                reveal(Seq::filter);
                assert(all@.take(i + 1).drop_last() =~= all@.take(i as int));
                assert(all@.take(i + 1).last() == k);
                let after = overdue_keys(m, all@.take(i + 1), now);
                if late {
                    assert(after =~= before.push(k));
                } else {
                    assert(after =~= before);
                }
                assert forall|j: int|
                    #![trigger after[j]]
                    0 <= j < after.len() implies given_up(
                    acts@[2 * j],
                    acts@[2 * j + 1],
                    m[after[j]].device,
                ) by {
                    if j < before.len() {
                        assert(given_up(head[2 * j], head[2 * j + 1], m[before[j]].device));
                        assert(acts@[2 * j] == head[2 * j]);
                        assert(acts@[2 * j + 1] == head[2 * j + 1]);
                    }
                }
            }
            i = i + 1;
        }
        proof {
            assert(all@.take(all@.len() as int) =~= all@);
        }
        acts
    }

    /// Sends a keepalive over every connection.
    pub fn ping_all(&self) -> (acts: Vec<Action>)
        ensures
            exists|ks: Seq<u64>| #[trigger]
                table::keys_of(self.conns@, ks) && pinged(self.conns@, ks, acts@),
    {
        let all = table::keys(&self.conns);
        let mut acts: Vec<Action> = Vec::new();
        let mut i: usize = 0;
        while i < all.len()
            invariant
                i <= all@.len(),
                table::keys_of(self.conns@, all@),
                pinged(self.conns@, all@.take(i as int), acts@),
            decreases all.len() - i,
        {
            let k: u64 = all[i];
            proof {
                assert(all@.contains(k));
                assert(self.conns@.contains_key(k));
            }
            if let Some(c) = self.conns.get(&k) {
                acts.push(Action::Send { to: c.device, msg: Message::Ping });
            }
            i = i + 1;
        }
        proof {
            assert(all@.take(all@.len() as int) =~= all@);
        }
        acts
    }
}

} // verus!
