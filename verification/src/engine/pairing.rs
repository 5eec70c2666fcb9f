//! Pairing: both users approve, or nobody is paired.

use vstd::prelude::*;
use vstd::string::*;
use crate::engine;
use crate::engine::{Action, Conn, Engine, EngineEvent};
use crate::proto::Message;
use crate::security::fingerprint::DeviceId;
use crate::security::trust;
use crate::security::trust::TrustError;

verus! {

broadcast use vstd::laws_cmp::group_laws_cmp;

/// Both users have approved a pairing that is not complete yet.
pub open spec fn is_ready(e: Engine, device: DeviceId) -> bool {
    let k = engine::dk(device);
    e.conns@.contains_key(k) && e.conns@[k].local_ok && e.conns@[k].remote_ok
        && !e.conns@[k].authorised
}

/// The action emits that a pairing is over.
pub open spec fn is_pairing_finished(a: Action, device: DeviceId, accepted: bool) -> bool {
    a matches Action::Emit(EngineEvent::PairingFinished { device: d, accepted: b }) && d == device
        && b == accepted
}

/// The action emits what is to be shown of a connection.
pub open spec fn is_connected(a: Action, e: Engine, device: DeviceId) -> bool {
    a matches Action::Emit(EngineEvent::Connected(info)) && engine::describes(
        info,
        e.conns@,
        device,
    )
}

/// How a pairing is recorded, and what follows: the trust store takes the key
/// or refuses it; only a key that it took is authorised.
pub open spec fn recorded(
    pre: Engine,
    post: Engine,
    device: DeviceId,
    wall: u64,
    r: Result<(), TrustError>,
    acts: Seq<Action>,
) -> bool {
    let k = engine::dk(device);
    let c = pre.conns@[k];
    &&& trust::added(
        pre.trust.spec_devices(),
        post.trust.spec_devices(),
        c.key@,
        c.name@,
        wall,
        r,
    )
    &&& match r {
        Err(e) => {
            &&& post.conns@ == pre.conns@
            &&& acts.len() == 1
            &&& engine::is_error(
                acts[0],
                "Не удалось сохранить сопряжение: "@ + e.message(),
            )
        },
        Ok(_) => {
            &&& post.conns@ == pre.conns@.insert(
                k,
                Conn { authorised: true, prompted_at: None, ..c },
            )
            &&& acts.len() == 4
            &&& acts[0] == Action::SaveTrust { report: true }
            &&& is_pairing_finished(acts[1], device, true)
            &&& acts[2] == Action::Emit(EngineEvent::TrustChanged)
            &&& is_connected(acts[3], post, device)
        },
    }
}

/// What an attempt to complete a pairing does: nothing unless both users have
/// approved.
pub open spec fn finalized(
    pre: Engine,
    post: Engine,
    device: DeviceId,
    wall: u64,
    acts: Seq<Action>,
) -> bool {
    if is_ready(pre, device) {
        exists|r: Result<(), TrustError>| #[trigger] recorded(pre, post, device, wall, r, acts)
    } else {
        &&& post.conns@ == pre.conns@
        &&& post.trust == pre.trust
        &&& acts.len() == 0
    }
}

/// The engine with the approval of the local user noted.
pub open spec fn locally_approved(pre: Engine, mid: Engine, device: DeviceId) -> bool {
    let k = engine::dk(device);
    &&& mid == (Engine { conns: mid.conns, ..pre })
    &&& mid.conns@ == pre.conns@.insert(k, Conn { local_ok: true, ..pre.conns@[k] })
}

/// What the answer of the user to a pairing prompt does.
pub open spec fn answered(
    pre: Engine,
    post: Engine,
    device: DeviceId,
    accept: bool,
    wall: u64,
    acts: Seq<Action>,
) -> bool {
    let k = engine::dk(device);
    if !pre.conns@.contains_key(k) {
        &&& post.conns@ == pre.conns@
        &&& post.trust == pre.trust
        &&& acts.len() == 1
        &&& engine::is_error(acts[0], "Соединение уже закрыто"@)
    } else if !accept {
        &&& post.conns@ == pre.conns@
        &&& post.trust == pre.trust
        &&& acts.len() == 3
        &&& acts[0] matches Action::Send { to, msg: Message::PairReject { reason } } && to == device
            && reason@ == "отклонено пользователем"@
        &&& acts[1] == Action::Close { device }
        &&& is_pairing_finished(acts[2], device, false)
    } else {
        &&& acts.len() > 0
        &&& acts[0] == Action::Send { to: device, msg: Message::PairAccept }
        &&& exists|mid: Engine| #[trigger]
            locally_approved(pre, mid, device) && finalized(mid, post, device, wall, acts.skip(1))
    }
}

/// Changing an entry of the connection table keeps the engine well formed.
pub proof fn lemma_conn_replaced(e: Engine, post: Engine, k: u64, c: Conn)
    requires
        e.wf(),
        e.conns@.contains_key(k),
        post == (Engine { conns: post.conns, trust: post.trust, ..e }),
        post.conns@ == e.conns@.insert(k, c),
        c.wf(),
        engine::dk(c.device) == k,
    ensures
        post.wf(),
{
    assert(e.conns@.insert(k, c).dom() =~= e.conns@.dom());
}

impl Engine {
    /// Pairing completes only when *both* users approved. One-sided approval
    /// never grants access. See [`finalized`].
    pub fn try_finalize_pairing(&mut self, device: DeviceId, wall: u64) -> (acts: Vec<Action>)
        requires
            old(self).wf(),
        ensures
            final(self).wf(),
            *final(self) == (Engine {
                conns: final(self).conns,
                trust: final(self).trust,
                ..*old(self)
            }),
            finalized(*old(self), *final(self), device, wall, acts@),
    {
        let ghost pre = *self;
        let k: u64 = device.key();
        let mut acts: Vec<Action> = Vec::new();
        let ready = match self.conns.get(&k) {
            Some(c) => c.local_ok && c.remote_ok && !c.authorised,
            None => false,
        };
        if !ready {
            return acts;
        }
        let mut c = match self.conns.remove(&k) {
            Some(c) => c,
            None => return acts,
        };
        let r = self.trust.add_at(c.key.as_slice(), c.name.as_str(), wall);
        match r {
            Err(e) => {
                self.conns.insert(k, c);
                proof {
                    assert(self.conns@ =~= pre.conns@);
                }
                let mut text = "Не удалось сохранить сопряжение: ".to_string();
                text.append(e.text().as_str());
                acts.push(Action::Emit(EngineEvent::Error(text)));
                proof {
                    assert(recorded(pre, *self, device, wall, Err(e), acts@));
                }
            },
            Ok(_) => {
                c.authorised = true;
                c.prompted_at = None;
                let ghost now = c;
                self.conns.insert(k, c);
                proof {
                    assert(self.conns@ =~= pre.conns@.insert(k, now));
                    lemma_conn_replaced(pre, *self, k, now);
                }
                acts.push(Action::SaveTrust { report: true });
                acts.push(Action::Emit(EngineEvent::PairingFinished { device, accepted: true }));
                acts.push(Action::Emit(EngineEvent::TrustChanged));
                acts.push(Action::Emit(EngineEvent::Connected(self.conn_info(device))));
                proof {
                    assert(recorded(pre, *self, device, wall, Ok(()), acts@));
                }
            },
        }
        acts
    }

    /// Answers an [`EngineEvent::PairingRequired`] prompt; see [`answered`].
    pub fn respond_pairing(&mut self, device: DeviceId, accept: bool) -> (acts: Vec<Action>)
        requires
            old(self).wf(),
        ensures
            final(self).wf(),
            *final(self) == (Engine {
                conns: final(self).conns,
                trust: final(self).trust,
                ..*old(self)
            }),
            exists|wall: u64| #[trigger]
                answered(*old(self), *final(self), device, accept, wall, acts@),
    {
        let wall: u64 = trust::now_ms();
        self.respond_pairing_at(device, accept, wall)
    }

    /// Answers a pairing prompt at a given time; see [`answered`].
    pub fn respond_pairing_at(&mut self, device: DeviceId, accept: bool, wall: u64) -> (acts: Vec<
        Action,
    >)
        requires
            old(self).wf(),
        ensures
            final(self).wf(),
            *final(self) == (Engine {
                conns: final(self).conns,
                trust: final(self).trust,
                ..*old(self)
            }),
            answered(*old(self), *final(self), device, accept, wall, acts@),
    {
        let ghost pre = *self;
        let k: u64 = device.key();
        let mut acts: Vec<Action> = Vec::new();
        if !self.conns.contains_key(&k) {
            acts.push(Action::Emit(EngineEvent::Error("Соединение уже закрыто".to_string())));
            return acts;
        }
        if !accept {
            acts.push(
                Action::Send {
                    to: device,
                    msg: Message::PairReject { reason: "отклонено пользователем".to_string() },
                },
            );
            acts.push(Action::Close { device });
            acts.push(Action::Emit(EngineEvent::PairingFinished { device, accepted: false }));
            return acts;
        }
        if let Some(c) = self.conns.remove(&k) {
            let mut c = c;
            c.local_ok = true;
            let ghost now = c;
            self.conns.insert(k, c);
            proof {
                assert(self.conns@ =~= pre.conns@.insert(k, now));
                lemma_conn_replaced(pre, *self, k, now);
            }
        }
        proof {
            assert(locally_approved(pre, *self, device));
        }
        acts.push(Action::Send { to: device, msg: Message::PairAccept });
        let rest = self.try_finalize_pairing(device, wall);
        let ghost tail = rest@;
        engine::files::extend(&mut acts, rest);
        proof {
            assert(acts@.skip(1) =~= tail);
        }
        acts
    }
}

/// A connection becomes authorised by pairing only if both users approved and
/// its key is trusted from then on.
pub proof fn law_pairing_needs_both(
    pre: Engine,
    post: Engine,
    device: DeviceId,
    wall: u64,
    acts: Seq<Action>,
)
    requires
        finalized(pre, post, device, wall, acts),
        trust::in_order(pre.trust.spec_devices()),
        post.has_authorised(device),
        !pre.has_authorised(device),
    ensures
        pre.conns@[engine::dk(device)].local_ok,
        pre.conns@[engine::dk(device)].remote_ok,
        post.trust.authorises(pre.conns@[engine::dk(device)].key@),
{
    let k = engine::dk(device);
    let r = choose|r: Result<(), TrustError>| #[trigger]
        recorded(pre, post, device, wall, r, acts);
    let c = pre.conns@[k];
    assert(r is Ok);
    assert(r == Ok::<(), TrustError>(()));
    trust::law_paired_device_is_authorised(
        pre.trust.spec_devices(),
        post.trust.spec_devices(),
        c.key@,
        c.name@,
        wall,
    );
}

/// One user alone grants nothing: while the other has not approved, the trust
/// store stays as it is and nobody becomes authorised.
pub proof fn law_one_sided_approval_grants_nothing(
    pre: Engine,
    post: Engine,
    device: DeviceId,
    wall: u64,
    acts: Seq<Action>,
)
    requires
        finalized(pre, post, device, wall, acts),
        !(pre.conns@.contains_key(engine::dk(device)) && pre.conns@[engine::dk(device)].local_ok
            && pre.conns@[engine::dk(device)].remote_ok),
    ensures
        post.trust == pre.trust,
        post.conns@ == pre.conns@,
{
}

} // verus!
