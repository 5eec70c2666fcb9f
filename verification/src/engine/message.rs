//! What a peer may say, and what follows.

use vstd::prelude::*;
use vstd::string::*;
use crate::engine;
use crate::engine::connection;
use crate::engine::files;
use crate::engine::outgoing;
use crate::engine::pairing;
use crate::engine::{Action, Conn, Engine, EngineEvent, OutSignal};
use crate::proto::{FileDone, IdReason, Message, MAX_TEXT_CHARS};
use crate::security::fingerprint::DeviceId;
use crate::security::trust;
use crate::util;

verus! {

broadcast use vstd::laws_cmp::group_laws_cmp;

/// The connection table after the peer of a device told its name.
pub open spec fn named(
    pre: Map<u64, Conn>,
    post: Map<u64, Conn>,
    device: DeviceId,
    name: Seq<char>,
    prompted_at: Option<u64>,
) -> bool {
    let k = engine::dk(device);
    &&& post == pre.insert(k, post[k])
    &&& post[k] == Conn { name: post[k].name, prompted_at, ..pre[k] }
    &&& post[k].name@ == name
}

/// What a greeting does: the name is noted, in the trust store too if the peer
/// is authorised.
pub open spec fn greeted(
    pre: Engine,
    post: Engine,
    device: DeviceId,
    key: Seq<u8>,
    name: Seq<char>,
    wall: u64,
    acts: Seq<Action>,
) -> bool {
    let k = engine::dk(device);
    let short = util::clamped(name, 64);
    &&& post == (Engine { conns: post.conns, trust: post.trust, ..pre })
    &&& if pre.conns@.contains_key(k) {
        named(pre.conns@, post.conns@, device, short, pre.conns@[k].prompted_at)
    } else {
        post.conns@ == pre.conns@
    }
    &&& acts.len() > 0
    &&& pairing::is_connected(acts.last(), post, device)
    &&& if pre.has_authorised(device) {
        &&& trust::changed(
            pre.trust.spec_devices(),
            post.trust.spec_devices(),
            key,
            trust::touched_at(short, wall),
        )
        &&& acts.len() == 2
        &&& acts[0] == Action::SaveTrust { report: false }
    } else {
        post.trust == pre.trust && acts.len() == 1
    }
}

/// What a request to pair does: the user is prompted, unless the peer is
/// authorised already.
pub open spec fn asked(
    pre: Engine,
    post: Engine,
    device: DeviceId,
    name: Seq<char>,
    now: u64,
    r: Result<(), String>,
    acts: Seq<Action>,
) -> bool {
    let k = engine::dk(device);
    let short = util::clamped(name, 64);
    if pre.conns@.contains_key(k) {
        &&& r is Ok
        &&& post == (Engine { conns: post.conns, ..pre })
        &&& named(pre.conns@, post.conns@, device, short, Some(now))
        &&& if pre.conns@[k].authorised {
            acts.len() == 0
        } else {
            acts.len() == 1 && connection::is_prompt(acts[0], device, short, pre.conns@[k], true)
        }
    } else {
        &&& r matches Err(why) && why@ == "нет соединения"@
        &&& post == pre
        &&& acts.len() == 0
    }
}

/// The engine with the approval of the remote user noted.
pub open spec fn remotely_approved(pre: Engine, mid: Engine, device: DeviceId) -> bool {
    let k = engine::dk(device);
    &&& mid == (Engine { conns: mid.conns, ..pre })
    &&& mid.conns@ == if pre.conns@.contains_key(k) {
        pre.conns@.insert(k, Conn { remote_ok: true, ..pre.conns@[k] })
    } else {
        pre.conns@
    }
}

/// What a refusal of an offer does: the sender of the file is told.
pub open spec fn turned_down(pre: Engine, r: IdReason, acts: Seq<Action>) -> bool {
    if pre.outgoing@.contains_key(engine::tk(r.id)) {
        &&& acts.len() == 1
        &&& acts[0] matches Action::Signal { transfer, signal: OutSignal::Reject(why) } && transfer
            == r.id && why@ == util::clamped(r.reason@, 120)
    } else {
        acts.len() == 0
    }
}

/// What the end of a transfer at the other side does: if it is sent from here
/// its sender is told, if it is received here it is dropped.
pub open spec fn stopped(pre: Engine, post: Engine, r: IdReason, acts: Seq<Action>) -> bool {
    let n: int = if pre.outgoing@.contains_key(engine::tk(r.id)) {
        1
    } else {
        0
    };
    &&& post == (Engine { incoming: post.incoming, ..pre })
    &&& acts.len() >= n
    &&& outgoing::signalled(pre, r.id, OutSignal::Cancel, acts.take(n))
    &&& files::aborted(
        pre.incoming@,
        post.incoming@,
        r.id,
        util::clamped(r.reason@, 120),
        acts.skip(n),
    )
}

/// What the last word on a file does: completion is decided by byte count and
/// hash, so this only cleans up a transfer that never completed.
pub open spec fn done(pre: Engine, post: Engine, d: FileDone, acts: Seq<Action>) -> bool {
    let k = engine::tk(d.id);
    if pre.incoming@.contains_key(k) && pre.incoming@[k].received != pre.incoming@[k].size {
        &&& post == (Engine { incoming: post.incoming, ..pre })
        &&& files::aborted(
            pre.incoming@,
            post.incoming@,
            d.id,
            "отправитель сообщил о завершении, но файл неполный"@,
            acts,
        )
    } else {
        post == pre && acts.len() == 0
    }
}

/// The action passes a text on to the user.
pub open spec fn is_text(a: Action, device: DeviceId, text: Seq<char>, sent: u64) -> bool {
    a matches Action::Emit(EngineEvent::TextReceived { from, text: t, ts }) && from == device && t@
        == text && ts == sent
}

/// What a message does. `Err` terminates the connection.
pub open spec fn heard(
    pre: Engine,
    post: Engine,
    device: DeviceId,
    key: Seq<u8>,
    msg: Message,
    now: u64,
    wall: u64,
    r: Result<(), String>,
    acts: Seq<Action>,
) -> bool {
    if !pre.has_authorised(device) && !msg.may_precede_pairing() {
        &&& post == pre
        &&& r matches Err(why) && why@ == "устройство прислало данные до сопряжения"@
        &&& acts.len() == 0
    } else {
        match msg {
            Message::Ping => {
                &&& post == pre
                &&& r is Ok
                &&& acts.len() == 1
                &&& acts[0] == Action::Send { to: device, msg: Message::Pong }
            },
            Message::Pong => post == pre && r is Ok && acts.len() == 0,
            Message::Hello(h) => r is Ok && greeted(pre, post, device, key, h.name@, wall, acts),
            Message::PairRequest(p) => asked(pre, post, device, p.name@, now, r, acts),
            Message::PairAccept => {
                &&& r is Ok
                &&& exists|mid: Engine| #[trigger]
                    remotely_approved(pre, mid, device) && pairing::finalized(
                        mid,
                        post,
                        device,
                        wall,
                        acts,
                    ) && post == (Engine { conns: post.conns, trust: post.trust, ..mid })
            },
            Message::PairReject { reason } => {
                &&& post == pre
                &&& r matches Err(why) && why@ == "сопряжение отклонено: "@ + util::clamped(
                    reason@,
                    80,
                )
                &&& acts.len() == 1
                &&& pairing::is_pairing_finished(acts[0], device, false)
            },
            Message::Text(t) => {
                &&& post == pre
                &&& r is Ok
                &&& acts.len() == 2
                &&& is_text(acts[0], device, util::clamped(t.text@, MAX_TEXT_CHARS as nat), t.ts)
                &&& acts[1] == Action::Send { to: device, msg: Message::TextAck { id: t.id } }
            },
            Message::TextAck { .. } => post == pre && r is Ok && acts.len() == 0,
            Message::FileOffer(o) => {
                &&& r is Ok
                &&& post == (Engine { incoming: post.incoming, ..pre })
                &&& files::offered(pre, post, device, key, o, now, acts)
            },
            Message::FileAccept { id } => {
                &&& post == pre
                &&& r is Ok
                &&& outgoing::signalled(pre, id, OutSignal::Accept, acts)
            },
            Message::FileReject(f) => post == pre && r is Ok && turned_down(pre, f, acts),
            Message::FileCancel(f) => r is Ok && stopped(pre, post, f, acts),
            Message::FileError(f) => r is Ok && stopped(pre, post, f, acts),
            Message::FileChunk { id, offset, data } => {
                &&& r is Ok
                &&& post == (Engine { incoming: post.incoming, ..pre })
                &&& files::chunked(pre, post, device, key, id, offset, data@, acts)
            },
            Message::FileDone(d) => r is Ok && done(pre, post, d, acts),
        }
    }
}

impl Engine {
    fn on_hello(&mut self, device: DeviceId, key: &[u8], name: &str, wall: u64) -> (acts: Vec<
        Action,
    >)
        requires
            old(self).wf(),
            engine::short_key(key@),
        ensures
            final(self).wf(),
            greeted(*old(self), *final(self), device, key@, name@, wall, acts@),
    {
        let ghost pre = *self;
        let k: u64 = device.key();
        let mut acts: Vec<Action> = Vec::new();
        let short = util::clamp_str(name, 64);
        let authorised = match self.conns.remove(&k) {
            Some(c) => {
                let authorised = c.authorised;
                let mut c = c;
                c.name = short.clone();
                let ghost next = c;
                self.conns.insert(k, c);
                proof {
                    assert(self.conns@ =~= pre.conns@.insert(k, next));
                    pairing::lemma_conn_replaced(pre, *self, k, next);
                }
                authorised
            },
            None => {
                proof {
                    assert(self.conns@ =~= pre.conns@);
                }
                false
            },
        };
        if authorised {
            self.trust.touch_at(key, short.as_str(), wall);
            proof {
                assert(trust::changed(
                    pre.trust.spec_devices(),
                    self.trust.spec_devices(),
                    key@,
                    trust::touched_at(short@, wall),
                ));
            }
            acts.push(Action::SaveTrust { report: false });
        }
        acts.push(Action::Emit(EngineEvent::Connected(self.conn_info(device))));
        acts
    }

    fn on_pair_request(&mut self, device: DeviceId, name: &str, now: u64) -> (r: (
        Result<(), String>,
        Vec<Action>,
    ))
        requires
            old(self).wf(),
        ensures
            final(self).wf(),
            asked(*old(self), *final(self), device, name@, now, r.0, r.1@),
    {
        let ghost pre = *self;
        let k: u64 = device.key();
        let mut acts: Vec<Action> = Vec::new();
        let short = util::clamp_str(name, 64);
        if !self.conns.contains_key(&k) {
            return (Err("нет соединения".to_string()), acts);
        }
        if let Some(c) = self.conns.remove(&k) {
            let mut c = c;
            c.name = short.clone();
            c.prompted_at = Some(now);
            if !c.authorised {
                acts.push(
                    Action::Emit(
                        EngineEvent::PairingRequired {
                            device,
                            name: short,
                            fingerprint: c.fingerprint.clone(),
                            sas: c.sas.clone(),
                            addr: c.addr,
                            remote_initiated: true,
                        },
                    ),
                );
            }
            let ghost next = c;
            self.conns.insert(k, c);
            proof {
                assert(self.conns@ =~= pre.conns@.insert(k, next));
                pairing::lemma_conn_replaced(pre, *self, k, next);
            }
        }
        (Ok(()), acts)
    }

    fn on_pair_accept(&mut self, device: DeviceId, wall: u64) -> (acts: Vec<Action>)
        requires
            old(self).wf(),
        ensures
            final(self).wf(),
            exists|mid: Engine| #[trigger]
                remotely_approved(*old(self), mid, device) && pairing::finalized(
                    mid,
                    *final(self),
                    device,
                    wall,
                    acts@,
                ) && *final(self) == (Engine {
                    conns: final(self).conns,
                    trust: final(self).trust,
                    ..mid
                }),
    {
        let ghost pre = *self;
        let k: u64 = device.key();
        match self.conns.remove(&k) {
            Some(c) => {
                let mut c = c;
                c.remote_ok = true;
                let ghost next = c;
                self.conns.insert(k, c);
                proof {
                    assert(self.conns@ =~= pre.conns@.insert(k, next));
                    pairing::lemma_conn_replaced(pre, *self, k, next);
                }
            },
            None => {
                proof {
                    assert(self.conns@ =~= pre.conns@);
                }
            },
        }
        proof {
            assert(remotely_approved(pre, *self, device));
        }
        self.try_finalize_pairing(device, wall)
    }

    fn on_stopped(&mut self, f: &IdReason) -> (acts: Vec<Action>)
        requires
            old(self).wf(),
        ensures
            final(self).wf(),
            stopped(*old(self), *final(self), *f, acts@),
    {
        let mut acts = self.signal_outgoing(f.id, OutSignal::Cancel);
        let ghost head = acts@;
        let short = util::clamp_str(f.reason.as_str(), 120);
        let rest = self.abort_incoming(f.id, short.as_str());
        let ghost tail = rest@;
        files::extend(&mut acts, rest);
        proof {
            let n = head.len() as int;
            assert(acts@.take(n) =~= head);
            assert(acts@.skip(n) =~= tail);
        }
        acts
    }

    fn on_done(&mut self, d: &FileDone) -> (acts: Vec<Action>)
        requires
            old(self).wf(),
        ensures
            final(self).wf(),
            done(*old(self), *final(self), *d, acts@),
    {
        let stale = match self.incoming.get(&d.id.key()) {
            Some(t) => !t.is_complete(),
            None => false,
        };
        if stale {
            self.abort_incoming(d.id, "отправитель сообщил о завершении, но файл неполный")
        } else {
            Vec::new()
        }
    }

    /// Single choke point for everything a peer can say; see [`heard`]. `key`
    /// is the key that the peer of the device proved. `Err` terminates the
    /// connection.
    pub fn on_message(
        &mut self,
        device: DeviceId,
        key: &[u8],
        msg: Message,
        now: u64,
        wall: u64,
    ) -> (r: (Result<(), String>, Vec<Action>))
        requires
            old(self).wf(),
            engine::short_key(key@),
        ensures
            final(self).wf(),
            heard(*old(self), *final(self), device, key@, msg, now, wall, r.0, r.1@),
    {
        let authorised = match self.conns.get(&device.key()) {
            Some(c) => c.authorised,
            None => false,
        };
        let mut acts: Vec<Action> = Vec::new();
        if !authorised && !msg.allowed_before_pairing() {
            return (Err("устройство прислало данные до сопряжения".to_string()), acts);
        }
        match msg {
            Message::Ping => {
                acts.push(Action::Send { to: device, msg: Message::Pong });
            },
            Message::Pong => {},
            Message::Hello(h) => {
                acts = self.on_hello(device, key, h.name.as_str(), wall);
            },
            Message::PairRequest(p) => {
                return self.on_pair_request(device, p.name.as_str(), now);
            },
            Message::PairAccept => {
                acts = self.on_pair_accept(device, wall);
            },
            Message::PairReject { reason } => {
                acts.push(Action::Emit(EngineEvent::PairingFinished { device, accepted: false }));
                let mut why = "сопряжение отклонено: ".to_string();
                why.append(util::clamp_str(reason.as_str(), 80).as_str());
                return (Err(why), acts);
            },
            Message::Text(t) => {
                let text = util::clamp_str(t.text.as_str(), MAX_TEXT_CHARS);
                acts.push(
                    Action::Emit(EngineEvent::TextReceived { from: device, text, ts: t.ts }),
                );
                acts.push(Action::Send { to: device, msg: Message::TextAck { id: t.id } });
            },
            Message::TextAck { .. } => {},
            Message::FileOffer(o) => {
                acts = self.on_offer(device, key, o, now);
            },
            Message::FileAccept { id } => {
                acts = self.signal_outgoing(id, OutSignal::Accept);
            },
            Message::FileReject(f) => {
                let short = util::clamp_str(f.reason.as_str(), 120);
                acts = self.signal_outgoing(f.id, OutSignal::Reject(short));
            },
            Message::FileCancel(f) => {
                acts = self.on_stopped(&f);
            },
            Message::FileError(f) => {
                acts = self.on_stopped(&f);
            },
            Message::FileChunk { id, offset, data } => {
                acts = self.on_chunk(device, key, id, offset, data);
            },
            Message::FileDone(d) => {
                acts = self.on_done(&d);
            },
        }
        (Ok(()), acts)
    }
}

/// Text and files from a peer that is not authorised change nothing, cause
/// nothing and terminate the connection.
pub proof fn law_unpaired_data_is_refused(
    pre: Engine,
    post: Engine,
    device: DeviceId,
    key: Seq<u8>,
    msg: Message,
    now: u64,
    wall: u64,
    r: Result<(), String>,
    acts: Seq<Action>,
)
    requires
        heard(pre, post, device, key, msg, now, wall, r, acts),
        !pre.has_authorised(device),
        !(msg is Hello || msg is Ping || msg is Pong || msg is PairRequest || msg is PairAccept
            || msg is PairReject),
    ensures
        r is Err,
        post == pre,
        acts.len() == 0,
{
}

/// No message of a peer makes it authorised but the approval of its user, and
/// that only after the local user approved: then its key is trusted.
pub proof fn law_messages_authorise_by_pairing_only(
    pre: Engine,
    post: Engine,
    device: DeviceId,
    key: Seq<u8>,
    msg: Message,
    now: u64,
    wall: u64,
    r: Result<(), String>,
    acts: Seq<Action>,
    any: DeviceId,
)
    requires
        heard(pre, post, device, key, msg, now, wall, r, acts),
        trust::in_order(pre.trust.spec_devices()),
        post.has_authorised(any),
        !pre.has_authorised(any),
    ensures
        any == device,
        msg is PairAccept,
        pre.conns@.contains_key(engine::dk(device)),
        pre.conns@[engine::dk(device)].local_ok,
        post.trust.authorises(pre.conns@[engine::dk(device)].key@),
{
    let k = engine::dk(device);
    if engine::dk(any) == k {
        engine::lemma_dk_injective(any, device);
    }
    if msg is PairAccept {
        let mid = choose|mid: Engine| #[trigger]
            remotely_approved(pre, mid, device) && pairing::finalized(
                mid,
                post,
                device,
                wall,
                acts,
            ) && post == (Engine { conns: post.conns, trust: post.trust, ..mid });
        assert(!mid.has_authorised(any));
        pairing::law_pairing_needs_both(mid, post, device, wall, acts);
    }
}

} // verus!
