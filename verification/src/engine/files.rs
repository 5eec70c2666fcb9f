//! Incoming files: offers, chunks, completion and failure.

use vstd::prelude::*;
use vstd::string::*;
use crate::codec;
use crate::crypto;
use crate::engine;
use crate::engine::transfer;
use crate::engine::transfer::{IncomingTransfer, Opened};
use crate::engine::{Action, Engine, EngineEvent, MAX_INCOMING_TRANSFERS};
use crate::proto::{FileOffer, IdReason, Message, TransferId, CHUNK_SIZE};
use crate::security::fingerprint;
use crate::security::fingerprint::DeviceId;
use crate::security::trust;
use crate::security::trust::TrustedDevice;
use crate::text;
use crate::util;
use crate::util::UniquePath;

verus! {

broadcast use vstd::laws_cmp::group_laws_cmp;

/// The action emits that an incoming transfer failed.
pub open spec fn is_failed(a: Action, id: TransferId, name: Seq<char>, reason: Seq<char>) -> bool {
    a matches Action::Emit(
        EngineEvent::TransferFinished {
            transfer,
            incoming: true,
            name: n,
            path: None,
            error: Some(e),
        },
    ) && transfer == id && n@ == name && e@ == reason
}

/// The action emits that an incoming transfer was stored at a path.
pub open spec fn is_stored(a: Action, id: TransferId, name: Seq<char>, at: Seq<char>) -> bool {
    a matches Action::Emit(
        EngineEvent::TransferFinished {
            transfer,
            incoming: true,
            name: n,
            path: Some(p),
            error: None,
        },
    ) && transfer == id && n@ == name && p@ == at
}

/// The action removes a quarantine file.
pub open spec fn is_remove(a: Action, at: Seq<char>) -> bool {
    a matches Action::RemovePart { path } && path@ == at
}

/// What dropping a transfer does, if there is one: it leaves the table, its
/// partial data is removed and its failure is told.
pub open spec fn aborted(
    pre: Map<u128, IncomingTransfer>,
    post: Map<u128, IncomingTransfer>,
    id: TransferId,
    reason: Seq<char>,
    acts: Seq<Action>,
) -> bool {
    let k = engine::tk(id);
    if pre.contains_key(k) {
        let t = pre[k];
        &&& post == pre.remove(k)
        &&& if t.part_path@.len() > 0 {
            &&& acts.len() == 2
            &&& is_remove(acts[0], t.part_path@)
            &&& is_failed(acts[1], id, t.name@, reason)
        } else {
            &&& acts.len() == 1
            &&& is_failed(acts[0], id, t.name@, reason)
        }
    } else {
        post == pre && acts.len() == 0
    }
}

/// What an answer to an offer does: a refusal drops the transfer and tells the
/// sender, the first approval asks for the quarantine file, and another one does
/// nothing.
pub open spec fn responded(
    pre: Engine,
    post: Engine,
    id: TransferId,
    accept: bool,
    acts: Seq<Action>,
) -> bool {
    let k = engine::tk(id);
    if !pre.incoming@.contains_key(k) {
        post.incoming@ == pre.incoming@ && acts.len() == 0
    } else if accept && pre.incoming@[k].approved {
        post.incoming@ == pre.incoming@ && acts.len() == 0
    } else if accept {
        let dir = util::joined(pre.paths.root@, "incoming"@);
        &&& post.incoming@ == pre.incoming@.insert(
            k,
            IncomingTransfer { approved: true, ..pre.incoming@[k] },
        )
        &&& acts.len() == 1
        &&& acts[0] matches Action::OpenPart { device, transfer, dir: d, path } && device
            == pre.incoming@[k].from && transfer == id && d@ == dir && path@ == transfer::part_of(
            dir,
            id,
        )
    } else {
        &&& acts.len() > 0
        &&& aborted(
            pre.incoming@,
            post.incoming@,
            id,
            "отклонено пользователем"@,
            acts.drop_last(),
        )
        &&& engine::is_file_reject(
            acts.last(),
            pre.incoming@[k].from,
            id,
            "отклонено получателем"@,
        )
    }
}

/// Whether files of the owner of a key are written without asking.
pub open spec fn accepts_unasked(e: Engine, key: Seq<u8>) -> bool {
    e.trust.spec_get(key) matches Some(d) && d.auto_accept_files
}

/// A transfer as it is entered when it is offered.
pub open spec fn is_offered(
    t: IncomingTransfer,
    device: DeviceId,
    key: Seq<u8>,
    o: FileOffer,
    now: u64,
) -> bool {
    &&& t.wf()
    &&& t.id == o.id
    &&& t.from == device
    &&& t.from_key@ == key
    &&& t.name@ == util::sanitized(o.name@)
    &&& t.size == o.size
    &&& t.expected_sha@ == text::lower_all(o.sha256@)
    &&& t.received == 0
    &&& !t.accepted
    &&& t.started == now
    &&& t.part_path@.len() == 0
}

/// What an offer does. One above the size limit and one too many are turned
/// down; any other is entered, and approved at once or shown to the user.
pub open spec fn offered(
    pre: Engine,
    post: Engine,
    device: DeviceId,
    key: Seq<u8>,
    o: FileOffer,
    now: u64,
    acts: Seq<Action>,
) -> bool {
    let k = engine::tk(o.id);
    let limit = pre.config.max_file_size;
    if limit > 0 && o.size > limit {
        &&& post.incoming@ == pre.incoming@
        &&& acts.len() == 2
        &&& engine::is_file_reject(acts[0], device, o.id, "файл слишком большой"@)
        &&& engine::is_notice(
            acts[1],
            "Отклонён файл "@ + util::clamped(o.name@, 60) + " — превышен лимит размера"@,
        )
    } else if pre.incoming@.len() >= MAX_INCOMING_TRANSFERS || pre.incoming@.contains_key(k) {
        &&& post.incoming@ == pre.incoming@
        &&& acts.len() == 1
        &&& engine::is_file_reject(acts[0], device, o.id, "слишком много передач"@)
    } else {
        &&& post.incoming@ == pre.incoming@.insert(k, post.incoming@[k])
        &&& is_offered(post.incoming@[k], device, key, o, now)
        &&& post.incoming@[k].approved == accepts_unasked(pre, key)
        &&& acts.len() == 1
        &&& if accepts_unasked(pre, key) {
            let dir = util::joined(pre.paths.root@, "incoming"@);
            acts[0] matches Action::OpenPart { device: d, transfer, dir: at, path } && d == device
                && transfer == o.id && at@ == dir && path@ == transfer::part_of(dir, o.id)
        } else {
            acts[0] matches Action::Emit(
                EngineEvent::OfferReceived { from, transfer, name, size },
            ) && from == device && transfer == o.id && name@ == util::sanitized(o.name@) && size
                == o.size
        }
    }
}

/// What follows when the quarantine file was opened, or could not be. It is
/// asked for once, so another report changes nothing.
pub open spec fn opened_part(
    pre: Engine,
    post: Engine,
    device: DeviceId,
    id: TransferId,
    opened: Opened,
    acts: Seq<Action>,
) -> bool {
    let k = engine::tk(id);
    let dir = util::joined(pre.paths.root@, "incoming"@);
    if pre.incoming@.contains_key(k) {
        if pre.incoming@[k].accepted {
            post.incoming@ == pre.incoming@ && acts.len() == 0
        } else if opened is Ready {
            &&& post.incoming@ == pre.incoming@.insert(k, post.incoming@[k])
            &&& transfer::accept_step(pre.incoming@[k], post.incoming@[k], dir, opened)
            &&& acts.len() == 1
            &&& acts[0] matches Action::Send { to, msg: Message::FileAccept { id: i } } && to
                == device && i == id
        } else {
            &&& acts.len() > 0
            &&& exists|t: IncomingTransfer|
                transfer::accept_step(pre.incoming@[k], t, dir, opened) && #[trigger] aborted(
                    pre.incoming@.insert(k, t),
                    post.incoming@,
                    id,
                    "не удалось создать файл"@,
                    acts.drop_last(),
                )
            &&& engine::is_file_reject(acts.last(), device, id, "ошибка записи на диск"@)
        }
    } else {
        &&& post.incoming@ == pre.incoming@
        &&& acts.len() == 1
        &&& engine::is_file_reject(acts[0], device, id, "ошибка записи на диск"@)
    }
}

/// A transfer belongs to exactly one peer; another connection may not write
/// into it even if it learns the id.
pub open spec fn owns(pre: Engine, device: DeviceId, key: Seq<u8>, id: TransferId) -> bool {
    let k = engine::tk(id);
    pre.incoming@.contains_key(k) && pre.incoming@[k].from == device
        && pre.incoming@[k].from_key@ == key
}

/// What a failure in the middle of a transfer does: the sender is told and the
/// transfer is dropped.
pub open spec fn failed(
    pre: Map<u128, IncomingTransfer>,
    post: Map<u128, IncomingTransfer>,
    device: DeviceId,
    id: TransferId,
    reason: Seq<char>,
    acts: Seq<Action>,
) -> bool {
    &&& acts.len() > 0
    &&& engine::is_file_error(acts[0], device, id, reason)
    &&& aborted(pre, post, id, reason, acts.skip(1))
}

/// What a chunk does: nothing unless it comes from the owner of the transfer;
/// a bad one fails the transfer; a good one is to be written.
pub open spec fn chunked(
    pre: Engine,
    post: Engine,
    device: DeviceId,
    key: Seq<u8>,
    id: TransferId,
    offset: u64,
    data: Seq<u8>,
    acts: Seq<Action>,
) -> bool {
    let k = engine::tk(id);
    if !owns(pre, device, key, id) {
        post.incoming@ == pre.incoming@ && acts.len() == 0
    } else {
        match pre.incoming@[k].chunk_fault(offset, data.len() as int) {
            Some(e) => failed(
                pre.incoming@,
                post.incoming@,
                device,
                id,
                e.message(),
                acts,
            ),
            None => {
                &&& post.incoming@ == pre.incoming@
                &&& acts.len() == 1
                &&& acts[0] matches Action::WritePart { device: d, transfer, offset: o, data: bytes }
                    && d == device && transfer == id && o == offset && bytes@ == data
            },
        }
    }
}

/// One progress event per 64 chunks (~2 MiB).
pub open spec fn tells_progress(done: u64) -> bool {
    done as int % (CHUNK_SIZE as int * 64) < CHUNK_SIZE
}

/// What follows when a chunk was written, or could not be.
pub open spec fn wrote_chunk(
    pre: Engine,
    post: Engine,
    device: DeviceId,
    id: TransferId,
    offset: u64,
    data: Seq<u8>,
    written: Result<(), String>,
    acts: Seq<Action>,
) -> bool {
    let k = engine::tk(id);
    if !pre.incoming@.contains_key(k) {
        post.incoming@ == pre.incoming@ && acts.len() == 0
    } else {
        let t = pre.incoming@[k];
        match chunk_result(t, offset, data, written) {
            Some(why) => failed(pre.incoming@, post.incoming@, device, id, why, acts),
            None => {
                &&& post.incoming@ == pre.incoming@.insert(k, post.incoming@[k])
                &&& transfer::chunk_step(t, post.incoming@[k], offset, data, written, Ok(()))
                &&& if t.received + data.len() == t.size {
                    &&& acts.len() == 1
                    &&& acts[0] matches Action::FlushPart { device: d, transfer } && d == device
                        && transfer == id
                } else if tells_progress((t.received + data.len()) as u64) {
                    &&& acts.len() == 1
                    &&& acts[0] matches Action::Emit(
                        EngineEvent::TransferProgress { transfer, done, total, incoming: true },
                    ) && transfer == id && done == t.received + data.len() && total == t.size
                } else {
                    acts.len() == 0
                }
            },
        }
    }
}

/// Why a chunk is not taken over, if it is not.
pub open spec fn chunk_result(
    t: IncomingTransfer,
    offset: u64,
    data: Seq<u8>,
    written: Result<(), String>,
) -> Option<Seq<char>> {
    match t.chunk_fault(offset, data.len() as int) {
        Some(e) => Some(e.message()),
        None => match written {
            Ok(_) => None,
            Err(why) => Some("io: "@ + why@),
        },
    }
}

/// What completion does: the transfer leaves the table; a file that is what was
/// offered is to be published, any other is removed and both sides are told.
pub open spec fn finished(
    pre: Engine,
    post: Engine,
    device: DeviceId,
    id: TransferId,
    flushed: Result<(), String>,
    acts: Seq<Action>,
) -> bool {
    let k = engine::tk(id);
    if !pre.incoming@.contains_key(k) {
        post.incoming@ == pre.incoming@ && acts.len() == 0
    } else {
        let t = pre.incoming@[k];
        &&& post.incoming@ == pre.incoming@.remove(k)
        &&& match t.finish_fault(flushed) {
            None => {
                &&& acts.len() == 1
                &&& acts[0] matches Action::PublishPart { device: d, transfer, part, place } && d
                    == device && transfer == id && part == t.part_path && place.dir@
                    == pre.config.download_dir@ && place.name@ == t.name@ && place.is_new()
            },
            Some(e) => {
                &&& acts.len() == 3
                &&& is_remove(acts[0], t.part_path@)
                &&& engine::is_file_error(acts[1], device, id, e.message())
                &&& is_failed(acts[2], id, t.name@, e.message())
            },
        }
    }
}

fn failed_event(id: TransferId, name: String, reason: &str) -> (r: Action)
    ensures
        is_failed(r, id, name@, reason@),
{
    Action::Emit(
        EngineEvent::TransferFinished {
            transfer: id,
            incoming: true,
            name,
            path: None,
            error: Some(reason.to_string()),
        },
    )
}

/// A message that turns a file down.
pub fn reject_file(device: DeviceId, id: TransferId, reason: &str) -> (r: Action)
    ensures
        engine::is_file_reject(r, device, id, reason@),
{
    Action::Send { to: device, msg: Message::FileReject(IdReason { id, reason: reason.to_string() }) }
}

/// A message that tells that a transfer failed.
pub fn error_file(device: DeviceId, id: TransferId, reason: &str) -> (r: Action)
    ensures
        engine::is_file_error(r, device, id, reason@),
{
    Action::Send { to: device, msg: Message::FileError(IdReason { id, reason: reason.to_string() }) }
}

/// Moves all actions of `more` to the end of `acts`.
pub fn extend(acts: &mut Vec<Action>, more: Vec<Action>)
    ensures
        final(acts)@ == old(acts)@ + more@,
{
    let mut more = more;
    acts.append(&mut more);
}

proof fn lemma_remove_keeps(e: Engine, post: Engine, k: u128)
    requires
        e.wf(),
        post == (Engine { incoming: post.incoming, ..e }),
        post.incoming@ == e.incoming@.remove(k),
    ensures
        post.wf(),
{
    if e.incoming@.contains_key(k) {
        e.incoming@.lemma_remove_key_len(k);
    } else {
        assert(e.incoming@.remove(k) =~= e.incoming@);
    }
}

proof fn lemma_replace_keeps(e: Engine, post: Engine, k: u128, t: IncomingTransfer)
    requires
        e.wf(),
        e.incoming@.contains_key(k),
        post == (Engine { incoming: post.incoming, ..e }),
        post.incoming@ == e.incoming@.insert(k, t),
        t.wf(),
        engine::tk(t.id) == k,
    ensures
        post.wf(),
{
    assert(e.incoming@.insert(k, t).dom() =~= e.incoming@.dom());
}

impl Engine {
    /// Drops a transfer, if there is one; see [`aborted`].
    pub fn abort_incoming(&mut self, id: TransferId, reason: &str) -> (acts: Vec<Action>)
        requires
            old(self).wf(),
        ensures
            final(self).wf(),
            *final(self) == (Engine { incoming: final(self).incoming, ..*old(self) }),
            aborted(old(self).incoming@, final(self).incoming@, id, reason@, acts@),
    {
        let ghost pre = *self;
        let mut acts: Vec<Action> = Vec::new();
        let k: u128 = id.key();
        match self.incoming.remove(&k) {
            Some(t) => {
                let name = t.name.clone();
                if let Some(path) = t.abort() {
                    acts.push(Action::RemovePart { path });
                }
                acts.push(failed_event(id, name, reason));
                proof {
                    lemma_remove_keeps(pre, *self, k);
                }
            },
            None => {
                proof {
                    assert(self.incoming@ =~= pre.incoming@);
                }
            },
        }
        acts
    }

    /// Answers an [`EngineEvent::OfferReceived`] prompt; see [`responded`].
    pub fn respond_offer(&mut self, id: TransferId, accept: bool) -> (acts: Vec<Action>)
        requires
            old(self).wf(),
        ensures
            final(self).wf(),
            *final(self) == (Engine { incoming: final(self).incoming, ..*old(self) }),
            responded(*old(self), *final(self), id, accept, acts@),
    {
        let ghost pre = *self;
        let k: u128 = id.key();
        let (device, approved) = match self.incoming.get(&k) {
            Some(t) => (t.from, t.approved),
            None => return Vec::new(),
        };
        if !accept {
            let mut acts = self.abort_incoming(id, "отклонено пользователем");
            let ghost head = acts@;
            acts.push(reject_file(device, id, "отклонено получателем"));
            proof {
                assert(acts@.drop_last() =~= head);
            }
            return acts;
        }
        if approved {
            return Vec::new();
        }
        if let Some(t) = self.incoming.remove(&k) {
            let mut t = t;
            t.approved = true;
            let ghost next = t;
            self.incoming.insert(k, t);
            proof {
                assert(self.incoming@ =~= pre.incoming@.insert(k, next));
                lemma_replace_keeps(pre, *self, k, next);
            }
        }
        let dir = self.paths.incoming();
        let path = transfer::part_path(dir.as_str(), id);
        let mut acts: Vec<Action> = Vec::new();
        acts.push(Action::OpenPart { device, transfer: id, dir, path });
        acts
    }

    /// The quarantine file of a transfer was opened, or could not be; see
    /// [`opened_part`].
    pub fn part_opened(&mut self, device: DeviceId, id: TransferId, opened: Opened) -> (acts: Vec<
        Action,
    >)
        requires
            old(self).wf(),
        ensures
            final(self).wf(),
            *final(self) == (Engine { incoming: final(self).incoming, ..*old(self) }),
            opened_part(*old(self), *final(self), device, id, opened, acts@),
    {
        let ghost pre = *self;
        let k: u128 = id.key();
        if let Some(t) = self.incoming.get(&k) {
            if t.accepted {
                return Vec::new();
            }
        }
        let dir = self.paths.incoming();
        let ok = match self.incoming.remove(&k) {
            Some(t) => {
                let mut t = t;
                let ghost was = t;
                let ok = t.accept(dir.as_str(), opened).is_ok();
                let ghost now = t;
                self.incoming.insert(k, t);
                proof {
                    assert(self.incoming@ =~= pre.incoming@.insert(k, now));
                    assert(now.id == was.id);
                    lemma_replace_keeps(pre, *self, k, now);
                    assert(transfer::accept_step(was, now, dir@, opened));
                }
                ok
            },
            None => {
                proof {
                    assert(self.incoming@ =~= pre.incoming@);
                }
                false
            },
        };
        if ok {
            let mut acts: Vec<Action> = Vec::new();
            acts.push(Action::Send { to: device, msg: Message::FileAccept { id } });
            return acts;
        }
        let ghost mid = self.incoming@;
        let mut acts = self.abort_incoming(id, "не удалось создать файл");
        let ghost head = acts@;
        acts.push(reject_file(device, id, "ошибка записи на диск"));
        proof {
            assert(acts@.drop_last() =~= head);
            if pre.incoming@.contains_key(k) {
                assert(mid == pre.incoming@.insert(k, mid[k]));
                assert(aborted(
                    pre.incoming@.insert(k, mid[k]),
                    self.incoming@,
                    id,
                    "не удалось создать файл"@,
                    acts@.drop_last(),
                ));
            }
        }
        acts
    }

    /// A peer offers a file; see [`offered`].
    pub fn on_offer(&mut self, device: DeviceId, key: &[u8], o: FileOffer, now: u64) -> (acts: Vec<
        Action,
    >)
        requires
            old(self).wf(),
            engine::short_key(key@),
        ensures
            final(self).wf(),
            *final(self) == (Engine { incoming: final(self).incoming, ..*old(self) }),
            offered(*old(self), *final(self), device, key@, o, now, acts@),
    {
        let mut acts: Vec<Action> = Vec::new();
        let auto = match self.trust.get(key) {
            Some(d) => d.auto_accept_files,
            None => false,
        };
        let limit: u64 = self.config.max_file_size;
        if limit > 0 && o.size > limit {
            acts.push(reject_file(device, o.id, "файл слишком большой"));
            let mut notice = "Отклонён файл ".to_string();
            notice.append(util::clamp_str(o.name.as_str(), 60).as_str());
            notice.append(" — превышен лимит размера");
            acts.push(Action::Emit(EngineEvent::Notice(notice)));
            return acts;
        }
        let k: u128 = o.id.key();
        if self.incoming.len() >= MAX_INCOMING_TRANSFERS || self.incoming.contains_key(&k) {
            acts.push(reject_file(device, o.id, "слишком много передач"));
            return acts;
        }
        let from_key = crate::bytes::slice_to_vec(key, 0, key.len());
        let t = IncomingTransfer::new(
            o.id,
            device,
            from_key,
            o.name.as_str(),
            o.size,
            o.sha256.as_str(),
            now,
        );
        let ghost entered = t;
        let name = t.name.clone();
        self.incoming.insert(k, t);
        proof {
            assert(key@.subrange(0, key@.len() as int) =~= key@);
            assert(self.incoming@[k] == entered);
        }
        if auto {
            let acts = self.respond_offer(o.id, true);
            proof {
                assert(self.incoming@ =~= old(self).incoming@.insert(k, self.incoming@[k]));
            }
            return acts;
        }
        acts.push(
            Action::Emit(
                EngineEvent::OfferReceived { from: device, transfer: o.id, name, size: o.size },
            ),
        );
        acts
    }

    /// A peer sends a piece of a file; see [`chunked`].
    pub fn on_chunk(
        &mut self,
        device: DeviceId,
        key: &[u8],
        id: TransferId,
        offset: u64,
        data: Vec<u8>,
    ) -> (acts: Vec<Action>)
        requires
            old(self).wf(),
        ensures
            final(self).wf(),
            *final(self) == (Engine { incoming: final(self).incoming, ..*old(self) }),
            chunked(*old(self), *final(self), device, key@, id, offset, data@, acts@),
    {
        let k: u128 = id.key();
        let fault = match self.incoming.get(&k) {
            None => return Vec::new(),
            Some(t) => {
                if !engine::same_device(t.from, device) || !fingerprint::keys_equal(
                    t.from_key.as_slice(),
                    key,
                ) {
                    return Vec::new();
                }
                match t.check_chunk(offset, data.len()) {
                    Ok(_) => None,
                    Err(e) => Some(e.text()),
                }
            },
        };
        match fault {
            None => {
                let mut acts: Vec<Action> = Vec::new();
                acts.push(Action::WritePart { device, transfer: id, offset, data });
                acts
            },
            Some(reason) => self.fail_incoming(device, id, reason.as_str()),
        }
    }

    /// Tells the sender that a transfer failed and drops it; see [`failed`].
    fn fail_incoming(&mut self, device: DeviceId, id: TransferId, reason: &str) -> (acts: Vec<
        Action,
    >)
        requires
            old(self).wf(),
        ensures
            final(self).wf(),
            *final(self) == (Engine { incoming: final(self).incoming, ..*old(self) }),
            failed(old(self).incoming@, final(self).incoming@, device, id, reason@, acts@),
    {
        let mut acts: Vec<Action> = Vec::new();
        acts.push(error_file(device, id, reason));
        let rest = self.abort_incoming(id, reason);
        let ghost tail = rest@;
        extend(&mut acts, rest);
        proof {
            assert(acts@.skip(1) =~= tail);
        }
        acts
    }

    /// A chunk was written to the quarantine file, or could not be; see
    /// [`wrote_chunk`].
    pub fn chunk_written(
        &mut self,
        device: DeviceId,
        id: TransferId,
        offset: u64,
        data: &[u8],
        written: Result<(), String>,
    ) -> (acts: Vec<Action>)
        requires
            old(self).wf(),
        ensures
            final(self).wf(),
            *final(self) == (Engine { incoming: final(self).incoming, ..*old(self) }),
            wrote_chunk(*old(self), *final(self), device, id, offset, data@, written, acts@),
    {
        let ghost pre = *self;
        let k: u128 = id.key();
        let mut acts: Vec<Action> = Vec::new();
        let t = match self.incoming.remove(&k) {
            Some(t) => t,
            None => {
                proof {
                    assert(self.incoming@ =~= pre.incoming@);
                }
                return acts;
            },
        };
        let mut t = t;
        let ghost was = t;
        let r = t.write_chunk(offset, data, written);
        let ghost after = t;
        let complete = t.is_complete();
        let done: u64 = t.received;
        let total: u64 = t.size;
        self.incoming.insert(k, t);
        proof {
            assert(self.incoming@ =~= pre.incoming@.insert(k, after));
            lemma_replace_keeps(pre, *self, k, after);
        }
        match r {
            Err(e) => {
                proof {
                    assert(self.incoming@ =~= pre.incoming@);
                }
                let reason = e.text();
                self.fail_incoming(device, id, reason.as_str())
            },
            Ok(_) => {
                if complete {
                    acts.push(Action::FlushPart { device, transfer: id });
                } else if done % (CHUNK_SIZE as u64 * 64) < CHUNK_SIZE as u64 {
                    acts.push(
                        Action::Emit(
                            EngineEvent::TransferProgress {
                                transfer: id,
                                done,
                                total,
                                incoming: true,
                            },
                        ),
                    );
                }
                acts
            },
        }
    }

    /// All bytes of a transfer have arrived and its quarantine file was
    /// flushed, or could not be; see [`finished`].
    pub fn finish_transfer(
        &mut self,
        device: DeviceId,
        id: TransferId,
        flushed: Result<(), String>,
    ) -> (acts: Vec<Action>)
        requires
            old(self).wf(),
        ensures
            final(self).wf(),
            *final(self) == (Engine { incoming: final(self).incoming, ..*old(self) }),
            finished(*old(self), *final(self), device, id, flushed, acts@),
    {
        let ghost pre = *self;
        let k: u128 = id.key();
        let mut acts: Vec<Action> = Vec::new();
        let t = match self.incoming.remove(&k) {
            Some(t) => t,
            None => {
                proof {
                    assert(self.incoming@ =~= pre.incoming@);
                }
                return acts;
            },
        };
        proof {
            lemma_remove_keeps(pre, *self, k);
        }
        let name = t.name.clone();
        let (part, verdict) = t.finish(flushed);
        match verdict {
            Ok(_) => {
                acts.push(
                    Action::PublishPart {
                        device,
                        transfer: id,
                        part,
                        place: util::unique_path(self.config.download_dir.as_str(), name.as_str()),
                    },
                );
            },
            Err(e) => {
                let reason = e.text();
                acts.push(Action::RemovePart { path: part });
                acts.push(error_file(device, id, reason.as_str()));
                acts.push(failed_event(id, name, reason.as_str()));
            },
        }
        acts
    }

    /// A verified file was moved to the path that the search for a free one ended
    /// at, or could not be: then its quarantine file is removed and both sides
    /// are told.
    pub fn published(
        &self,
        device: DeviceId,
        id: TransferId,
        part: String,
        place: UniquePath,
        outcome: Result<(), String>,
    ) -> (acts: Vec<Action>)
        requires
            outcome is Ok ==> place.free,
        ensures
            match outcome {
                Ok(_) => acts@.len() == 1 && is_stored(
                    acts@[0],
                    id,
                    place.name@,
                    place.current(),
                ),
                Err(why) => {
                    &&& acts@.len() == 3
                    &&& is_remove(acts@[0], part@)
                    &&& engine::is_file_error(acts@[1], device, id, "io: "@ + why@)
                    &&& is_failed(acts@[2], id, place.name@, "io: "@ + why@)
                },
            },
    {
        let mut acts: Vec<Action> = Vec::new();
        let name = place.name.clone();
        match outcome {
            Ok(_) => {
                let path = place.path();
                acts.push(
                    Action::Emit(
                        EngineEvent::TransferFinished {
                            transfer: id,
                            incoming: true,
                            name,
                            path: Some(path),
                            error: None,
                        },
                    ),
                );
            },
            Err(why) => {
                let mut reason = "io: ".to_string();
                reason.append(why.as_str());
                acts.push(Action::RemovePart { path: part });
                acts.push(error_file(device, id, reason.as_str()));
                acts.push(failed_event(id, name, reason.as_str()));
            },
        }
        acts
    }
}

/// A chunk from anybody but the peer that a transfer belongs to changes nothing
/// and causes nothing.
pub proof fn law_foreign_chunks_are_ignored(
    pre: Engine,
    post: Engine,
    device: DeviceId,
    key: Seq<u8>,
    id: TransferId,
    offset: u64,
    data: Seq<u8>,
    acts: Seq<Action>,
)
    requires
        chunked(pre, post, device, key, id, offset, data, acts),
        !(pre.incoming@.contains_key(engine::tk(id)) && pre.incoming@[engine::tk(id)].from
            == device && pre.incoming@[engine::tk(id)].from_key@ == key),
    ensures
        post.incoming@ == pre.incoming@,
        acts.len() == 0,
{
}

/// The quarantine file of a transfer is asked for once: when the transfer is
/// approved, and never again. So it is not emptied while it is being filled.
pub proof fn law_quarantine_file_is_opened_once(
    pre: Engine,
    post: Engine,
    id: TransferId,
    accept: bool,
    acts: Seq<Action>,
    i: int,
)
    requires
        pre.wf(),
        responded(pre, post, id, accept, acts),
        0 <= i < acts.len(),
        acts[i] is OpenPart,
    ensures
        !pre.incoming@[engine::tk(id)].approved,
        !pre.incoming@[engine::tk(id)].accepted,
        post.incoming@[engine::tk(id)].approved,
{
    let k = engine::tk(id);
    if pre.incoming@.contains_key(k) && !accept {
        if i < acts.len() - 1 {
            assert(acts.drop_last()[i] == acts[i]);
        }
    }
}

/// Nothing is published but a file that has the size and the SHA-256 that were
/// offered. The file is what was written to it since it was created, see
/// [`transfer::law_opened_file_mirrors`] and
/// [`transfer::law_written_file_mirrors`].
pub proof fn law_only_verified_files_are_published(
    pre: Engine,
    post: Engine,
    device: DeviceId,
    id: TransferId,
    flushed: Result<(), String>,
    acts: Seq<Action>,
    i: int,
    file: Seq<u8>,
)
    requires
        pre.wf(),
        finished(pre, post, device, id, flushed, acts),
        0 <= i < acts.len(),
        acts[i] is PublishPart,
        pre.incoming@[engine::tk(id)].accepted,
        transfer::mirrors(pre.incoming@[engine::tk(id)], file),
    ensures
        pre.incoming@.contains_key(engine::tk(id)),
        file.len() == pre.incoming@[engine::tk(id)].size,
        codec::hex(crypto::sha256(file)) == pre.incoming@[engine::tk(id)].expected_sha@,
{
}

/// A published file takes the place of nothing: whatever existed when the search
/// for its path asked about it still has its own path.
pub proof fn law_published_file_overwrites_nothing(
    place: UniquePath,
    taken: Set<Seq<char>>,
    a: Action,
    id: TransferId,
)
    requires
        place.agrees(taken),
        place.free,
        is_stored(a, id, place.name@, place.current()),
    ensures
        a matches Action::Emit(EngineEvent::TransferFinished { path: Some(p), .. })
            && !taken.contains(p@),
        util::separator_free(place.name@) && place.dir@.len() > 0 ==> util::last_component(
            place.current(),
        ) == util::candidate(place.name@, place.tries as nat),
{
    if util::separator_free(place.name@) && place.dir@.len() > 0 {
        let name = util::candidate(place.name@, place.tries as nat);
        util::law_candidates_stay_inside(place.name@, place.tries as nat);
        util::law_joined_is_a_child(place.dir@, name);
    }
}

/// Files of a device that was paired for the first time are not written before
/// the user agreed: its offers are shown.
pub proof fn law_offers_of_new_devices_are_shown(
    before: Seq<TrustedDevice>,
    name: Seq<char>,
    wall: u64,
    pre: Engine,
    post: Engine,
    device: DeviceId,
    key: Seq<u8>,
    o: FileOffer,
    now: u64,
    acts: Seq<Action>,
)
    requires
        trust::in_order(before),
        trust::lookup(before, key) is None,
        trust::added(before, pre.trust.spec_devices(), key, name, wall, Ok(())),
        offered(pre, post, device, key, o, now, acts),
    ensures
        forall|i: int| 0 <= i < acts.len() ==> !(#[trigger] acts[i] is OpenPart),
{
    trust::law_new_device_is_asked(before, pre.trust.spec_devices(), key, name, wall);
}

} // verus!
