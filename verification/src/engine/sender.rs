//! Sending a file: the offer, the answer, the chunks, the end.
//!
//! A [`FileSender`] is what one sending thread remembers. Each step takes what
//! happened and returns what is [`Next`] and which actions to carry out.

use vstd::prelude::*;
use vstd::string::*;
use crate::engine;
use crate::engine::files;
use crate::engine::transfer::IncomingTransfer;
use crate::engine::{Action, Engine, EngineEvent, OutSignal, Outgoing};
use crate::proto;
use crate::proto::{
    FileDone, FileOffer, Message, TransferId, CHUNK_SIZE, MAX_FILENAME_CHARS, MAX_FILE_SIZE,
};
use crate::security::fingerprint::DeviceId;
use crate::util;

verus! {

broadcast use vstd::laws_cmp::group_laws_cmp;

/// A progress event is told after so many chunks.
pub const CHUNKS_PER_EVENT: u64 = 64;

/// A file on its way out.
#[derive(Debug)]
pub struct FileSender {
    pub id: TransferId,
    pub to: DeviceId,
    pub name: String,
    pub path: String,
    pub size: u64,
    /// The SHA-256 that was offered, in hexadecimal.
    pub sha256: String,
    /// How many bytes were sent.
    pub offset: u64,
    /// How many chunks were sent.
    pub chunk_no: u64,
}

/// What the sending thread does next.
#[derive(Debug)]
pub enum Next {
    /// Send the offer, then [`Engine::offer_sent`].
    Offer(Message),
    /// Wait for the answer up to [`engine::OFFER_TIMEOUT`], then
    /// [`Engine::offer_answered`].
    Await,
    /// Open the file, then [`Engine::file_opened`].
    Open,
    /// Look for a signal without waiting, then [`Engine::polled`].
    Poll,
    /// Read up to [`crate::proto::CHUNK_SIZE`] bytes, then [`Engine::chunk_read`].
    Read,
    /// Send a chunk, then [`Engine::chunk_sent`].
    Chunk(Message),
    /// It is over.
    Stop,
}

impl FileSender {
    /// Every chunk holds at least one byte, and what is offered keeps its
    /// bounds.
    pub open spec fn wf(&self) -> bool {
        &&& self.chunk_no <= self.offset
        &&& self.name@.len() <= MAX_FILENAME_CHARS
        &&& self.size <= MAX_FILE_SIZE
    }
}

/// The action emits that an outgoing transfer is over.
pub open spec fn is_over(
    a: Action,
    id: TransferId,
    name: Seq<char>,
    at: Option<Seq<char>>,
    why: Option<Seq<char>>,
) -> bool {
    a matches Action::Emit(
        EngineEvent::TransferFinished { transfer, incoming: false, name: n, path, error },
    ) && transfer == id && n@ == name && at == (match path {
        Some(p) => Some(p@),
        None => None,
    }) && why == (match error {
        Some(e) => Some(e@),
        None => None,
    })
}

/// What the end of an outgoing transfer does: it leaves the table and the user
/// is told.
pub open spec fn over(
    pre: Engine,
    post: Engine,
    s: FileSender,
    at: Option<Seq<char>>,
    why: Option<Seq<char>>,
    next: Next,
    acts: Seq<Action>,
) -> bool {
    &&& post.outgoing@ == pre.outgoing@.remove(engine::tk(s.id))
    &&& next is Stop
    &&& acts.len() == 1
    &&& is_over(acts[0], s.id, s.name@, at, why)
}

/// As [`over`], after the receiver was told why, if it may be written to.
pub open spec fn over_with_error(
    pre: Engine,
    post: Engine,
    s: FileSender,
    why: Seq<char>,
    next: Next,
    acts: Seq<Action>,
) -> bool {
    if pre.has_authorised(s.to) {
        &&& acts.len() > 0
        &&& engine::is_file_error(acts[0], s.to, s.id, why)
        &&& over(pre, post, s, None, Some(why), next, acts.skip(1))
    } else {
        over(pre, post, s, None, Some(why), next, acts)
    }
}

/// The offer of a file.
pub open spec fn is_offer(m: Message, s: FileSender) -> bool {
    m matches Message::FileOffer(o) && o.id == s.id && o.name@ == s.name@ && o.size == s.size
        && o.sha256@ == s.sha256@ && o.mime@.len() == 0
}

/// The last message of a file: it repeats the hash of the offer.
pub open spec fn is_done(m: Message, s: FileSender) -> bool {
    m matches Message::FileDone(d) && d.id == s.id && d.sha256@ == s.sha256@
}

/// The name that a file is offered under: no longer than one that a receiver
/// reads.
pub open spec fn offered_name(name: Option<String>) -> Seq<char> {
    match name {
        Some(n) => util::cut(n@, MAX_FILENAME_CHARS as nat),
        None => "file"@,
    }
}

/// What starting to send a file does. The file must be readable and no larger
/// than a file may be; it is entered in the table; and its offer is sent unless
/// the receiver cannot be written to.
pub open spec fn offered_out(
    pre: Engine,
    post: Engine,
    to: DeviceId,
    name: Option<String>,
    path: Seq<char>,
    hashed: Result<(String, u64), String>,
    id: TransferId,
    s: FileSender,
    next: Next,
    acts: Seq<Action>,
) -> bool {
    let k = engine::tk(id);
    &&& s.id == id
    &&& s.to == to
    &&& s.name@ == offered_name(name)
    &&& s.path@ == path
    &&& s.offset == 0
    &&& s.chunk_no == 0
    &&& match hashed {
        Err(why) => {
            &&& post.outgoing@ == pre.outgoing@
            &&& next is Stop
            &&& acts.len() == 1
            &&& engine::is_error(
                acts[0],
                "Не удалось прочитать "@ + offered_name(name) + ": "@ + why@,
            )
        },
        Ok((sha, size)) => if size > MAX_FILE_SIZE {
            over(pre, post, s, None, Some("файл слишком большой"@), next, acts)
        } else {
            &&& s.size == size
            &&& s.sha256@ == sha@
            &&& match pre.send_refusal(to) {
                Some(why) => {
                    &&& post.outgoing@ == pre.outgoing@.remove(k)
                    &&& next is Stop
                    &&& acts.len() == 1
                    &&& is_over(acts[0], id, s.name@, None, Some(why))
                },
                None => {
                    &&& post.outgoing@ == pre.outgoing@.insert(
                        k,
                        Outgoing { id, to, name: s.name, size, cancel: false },
                    )
                    &&& next matches Next::Offer(m) && is_offer(m, s)
                    &&& acts.len() == 0
                },
            }
        },
    }
}

/// What the answer to an offer does.
pub open spec fn answered(
    pre: Engine,
    post: Engine,
    s: FileSender,
    answer: Option<OutSignal>,
    next: Next,
    acts: Seq<Action>,
) -> bool {
    match answer {
        Some(OutSignal::Accept) => post == pre && next is Open && acts.len() == 0,
        Some(OutSignal::Reject(why)) => over(
            pre,
            post,
            s,
            None,
            Some("получатель отказался: "@ + why@),
            next,
            acts,
        ),
        Some(OutSignal::Cancel) => over(pre, post, s, None, Some("отменено"@), next, acts),
        None => over(pre, post, s, None, Some("получатель не ответил"@), next, acts),
    }
}

/// Whether the sending was cancelled on this side.
pub open spec fn is_cancelled(e: Engine, s: FileSender) -> bool {
    let k = engine::tk(s.id);
    e.outgoing@.contains_key(k) && e.outgoing@[k].cancel
}

/// What a look for signals does.
pub open spec fn looked(
    pre: Engine,
    post: Engine,
    s: FileSender,
    signal: Option<OutSignal>,
    next: Next,
    acts: Seq<Action>,
) -> bool {
    if is_cancelled(pre, s) {
        over(pre, post, s, None, Some("отменено"@), next, acts)
    } else {
        match signal {
            Some(OutSignal::Cancel) => over(
                pre,
                post,
                s,
                None,
                Some("прервано получателем"@),
                next,
                acts,
            ),
            Some(OutSignal::Reject(_)) => over(
                pre,
                post,
                s,
                None,
                Some("прервано получателем"@),
                next,
                acts,
            ),
            _ => post == pre && next is Read && acts.len() == 0,
        }
    }
}

/// What a piece of the file does: it is to be sent at the place up to which the
/// file was sent. At the end of the file all of it must have been sent.
pub open spec fn picked(
    pre: Engine,
    post: Engine,
    s: FileSender,
    got: Result<Vec<u8>, String>,
    next: Next,
    acts: Seq<Action>,
) -> bool {
    match got {
        Err(why) => over_with_error(pre, post, s, why@, next, acts),
        Ok(data) => if data@.len() == 0 {
            if s.offset != s.size {
                over_with_error(pre, post, s, "файл изменился во время отправки"@, next, acts)
            } else if pre.has_authorised(s.to) {
                &&& acts.len() > 0
                &&& acts[0] matches Action::Send { to, msg } && to == s.to && is_done(msg, s)
                &&& over(pre, post, s, Some(s.path@), None, next, acts.skip(1))
            } else {
                over(pre, post, s, Some(s.path@), None, next, acts)
            }
        } else {
            match pre.send_refusal(s.to) {
                Some(why) => over(pre, post, s, None, Some(why), next, acts),
                None => {
                    &&& post == pre
                    &&& acts.len() == 0
                    &&& next matches Next::Chunk(m) && is_chunk(m, s, data@)
                },
            }
        },
    }
}

/// The message carries the next bytes of a file.
pub open spec fn is_chunk(m: Message, s: FileSender, data: Seq<u8>) -> bool {
    m matches Message::FileChunk { id, offset, data: d } && id == s.id && offset == s.offset && d@
        == data
}

/// What follows when a chunk was sent, or could not be.
pub open spec fn advanced(
    pre: Engine,
    post: Engine,
    was: FileSender,
    s: FileSender,
    n: usize,
    outcome: Result<(), String>,
    next: Next,
    acts: Seq<Action>,
) -> bool {
    match outcome {
        Err(why) => {
            &&& s == was
            &&& over(pre, post, s, None, Some("Ошибка отправки: "@ + why@), next, acts)
        },
        Ok(_) => {
            &&& post == pre
            &&& next is Poll
            &&& s == (FileSender {
                offset: (was.offset + n) as u64,
                chunk_no: (was.chunk_no + 1) as u64,
                ..was
            })
            &&& if (was.chunk_no + 1) % CHUNKS_PER_EVENT as int == 0 {
                &&& acts.len() == 1
                &&& acts[0] matches Action::Emit(
                    EngineEvent::TransferProgress { transfer, done, total, incoming: false },
                ) && transfer == s.id && done == s.offset && total == s.size
            } else {
                acts.len() == 0
            }
        },
    }
}

fn send_error(why: &str) -> (r: String)
    ensures
        r@ == "Ошибка отправки: "@ + why@,
{
    let mut t = "Ошибка отправки: ".to_string();
    t.append(why);
    t
}

proof fn lemma_outgoing_removed(pre: Engine, post: Engine, k: u128)
    requires
        pre.wf(),
        post == (Engine { outgoing: post.outgoing, ..pre }),
        post.outgoing@ == pre.outgoing@.remove(k),
    ensures
        post.wf(),
{
}

impl Engine {
    /// Ends an outgoing transfer; see [`over`].
    fn finish_outgoing(&mut self, s: &FileSender, path: Option<String>, error: Option<String>) -> (r:
        (Next, Vec<Action>))
        requires
            old(self).wf(),
        ensures
            final(self).wf(),
            *final(self) == (Engine { outgoing: final(self).outgoing, ..*old(self) }),
            over(
                *old(self),
                *final(self),
                *s,
                match path {
                    Some(p) => Some(p@),
                    None => None,
                },
                match error {
                    Some(e) => Some(e@),
                    None => None,
                },
                r.0,
                r.1@,
            ),
    {
        let ghost pre = *self;
        let k: u128 = s.id.key();
        self.outgoing.remove(&k);
        proof {
            assert(self.outgoing@ =~= pre.outgoing@.remove(k));
            lemma_outgoing_removed(pre, *self, k);
        }
        let mut acts: Vec<Action> = Vec::new();
        acts.push(
            Action::Emit(
                EngineEvent::TransferFinished {
                    transfer: s.id,
                    incoming: false,
                    name: s.name.clone(),
                    path,
                    error,
                },
            ),
        );
        (Next::Stop, acts)
    }

    /// Ends an outgoing transfer for a reason that the receiver is told; see
    /// [`over_with_error`].
    fn fail_outgoing(&mut self, s: &FileSender, why: &str) -> (r: (Next, Vec<Action>))
        requires
            old(self).wf(),
        ensures
            final(self).wf(),
            *final(self) == (Engine { outgoing: final(self).outgoing, ..*old(self) }),
            over_with_error(*old(self), *final(self), *s, why@, r.0, r.1@),
    {
        let mut acts: Vec<Action> = Vec::new();
        let told = self.send_to(s.to).is_ok();
        if told {
            acts.push(files::error_file(s.to, s.id, why));
        }
        let (next, rest) = self.finish_outgoing(s, None, Some(why.to_string()));
        let ghost tail = rest@;
        files::extend(&mut acts, rest);
        proof {
            if told {
                assert(acts@.skip(1) =~= tail);
            } else {
                assert(acts@ =~= tail);
            }
        }
        (next, acts)
    }

    /// Starts to send a file. `name` is the last part of its path, if there is
    /// one; `hashed` is the SHA-256 of its contents in hexadecimal and its
    /// size, or why it could not be read. See [`offered_out`].
    pub fn send_file(
        &mut self,
        to: DeviceId,
        name: Option<String>,
        path: String,
        hashed: Result<(String, u64), String>,
    ) -> (r: (FileSender, Next, Vec<Action>))
        requires
            old(self).wf(),
        ensures
            final(self).wf(),
            *final(self) == (Engine { outgoing: final(self).outgoing, ..*old(self) }),
            r.0.wf(),
            exists|id: TransferId| #[trigger]
                offered_out(
                    *old(self),
                    *final(self),
                    to,
                    name,
                    path@,
                    hashed,
                    id,
                    r.0,
                    r.1,
                    r.2@,
                ),
    {
        let id = TransferId::random();
        self.send_file_as(to, name, path, hashed, id)
    }

    /// Starts to send a file under a given identifier; see [`offered_out`].
    pub fn send_file_as(
        &mut self,
        to: DeviceId,
        name: Option<String>,
        path: String,
        hashed: Result<(String, u64), String>,
        id: TransferId,
    ) -> (r: (FileSender, Next, Vec<Action>))
        requires
            old(self).wf(),
        ensures
            final(self).wf(),
            *final(self) == (Engine { outgoing: final(self).outgoing, ..*old(self) }),
            r.0.wf(),
            offered_out(
                *old(self),
                *final(self),
                to,
                name,
                path@,
                hashed,
                id,
                r.0,
                r.1,
                r.2@,
            ),
    {
        let ghost pre = *self;
        proof {
            reveal_strlit("file");
        }
        let name = match name {
            Some(n) => util::cut_str(n.as_str(), MAX_FILENAME_CHARS),
            None => "file".to_string(),
        };
        let mut s = FileSender {
            id,
            to,
            name,
            path,
            size: 0,
            sha256: String::new(),
            offset: 0,
            chunk_no: 0,
        };
        let mut acts: Vec<Action> = Vec::new();
        let (sha, size) = match hashed {
            Ok((sha, size)) => (sha, size),
            Err(why) => {
                let mut t = "Не удалось прочитать ".to_string();
                t.append(s.name.as_str());
                t.append(": ");
                t.append(why.as_str());
                acts.push(Action::Emit(EngineEvent::Error(t)));
                return (s, Next::Stop, acts);
            },
        };
        if size > MAX_FILE_SIZE {
            let (next, acts) = self.finish_outgoing(
                &s,
                None,
                Some("файл слишком большой".to_string()),
            );
            return (s, next, acts);
        }
        s.size = size;
        s.sha256 = sha;
        let k: u128 = id.key();
        let entry = Outgoing { id, to, name: s.name.clone(), size, cancel: false };
        let ghost entered = entry;
        self.outgoing.insert(k, entry);
        proof {
            assert(self.outgoing@ == pre.outgoing@.insert(k, entered));
        }
        match self.send_to(to) {
            Err(why) => {
                let (next, acts) = self.finish_outgoing(&s, None, Some(why));
                proof {
                    assert(pre.outgoing@.insert(k, entered).remove(k) =~= pre.outgoing@.remove(k));
                }
                (s, next, acts)
            },
            Ok(_) => {
                let offer = FileOffer {
                    id,
                    name: s.name.clone(),
                    size,
                    sha256: s.sha256.clone(),
                    mime: String::new(),
                };
                (s, Next::Offer(Message::FileOffer(offer)), acts)
            },
        }
    }

    /// The offer was sent, or could not be.
    pub fn offer_sent(&mut self, s: &FileSender, outcome: Result<(), String>) -> (r: (
        Next,
        Vec<Action>,
    ))
        requires
            old(self).wf(),
        ensures
            final(self).wf(),
            *final(self) == (Engine { outgoing: final(self).outgoing, ..*old(self) }),
            match outcome {
                Ok(_) => *final(self) == *old(self) && r.0 is Await && r.1@.len() == 0,
                Err(why) => over(
                    *old(self),
                    *final(self),
                    *s,
                    None,
                    Some("Ошибка отправки: "@ + why@),
                    r.0,
                    r.1@,
                ),
            },
    {
        match outcome {
            Ok(_) => (Next::Await, Vec::new()),
            Err(why) => self.finish_outgoing(s, None, Some(send_error(why.as_str()))),
        }
    }

    /// The receiver answered, or did not in time; see [`answered`].
    pub fn offer_answered(&mut self, s: &FileSender, answer: Option<OutSignal>) -> (r: (
        Next,
        Vec<Action>,
    ))
        requires
            old(self).wf(),
        ensures
            final(self).wf(),
            *final(self) == (Engine { outgoing: final(self).outgoing, ..*old(self) }),
            answered(*old(self), *final(self), *s, answer, r.0, r.1@),
    {
        match answer {
            Some(OutSignal::Accept) => (Next::Open, Vec::new()),
            Some(OutSignal::Reject(why)) => {
                let mut t = "получатель отказался: ".to_string();
                t.append(why.as_str());
                self.finish_outgoing(s, None, Some(t))
            },
            Some(OutSignal::Cancel) => self.finish_outgoing(s, None, Some("отменено".to_string())),
            None => self.finish_outgoing(s, None, Some("получатель не ответил".to_string())),
        }
    }

    /// The file was opened, or could not be.
    pub fn file_opened(&mut self, s: &FileSender, opened: Result<(), String>) -> (r: (
        Next,
        Vec<Action>,
    ))
        requires
            old(self).wf(),
        ensures
            final(self).wf(),
            *final(self) == (Engine { outgoing: final(self).outgoing, ..*old(self) }),
            match opened {
                Ok(_) => *final(self) == *old(self) && r.0 is Poll && r.1@.len() == 0,
                Err(why) => over(*old(self), *final(self), *s, None, Some(why@), r.0, r.1@),
            },
    {
        match opened {
            Ok(_) => (Next::Poll, Vec::new()),
            Err(why) => self.finish_outgoing(s, None, Some(why)),
        }
    }

    /// The signals were looked at; see [`looked`].
    pub fn polled(&mut self, s: &FileSender, signal: Option<OutSignal>) -> (r: (Next, Vec<Action>))
        requires
            old(self).wf(),
        ensures
            final(self).wf(),
            *final(self) == (Engine { outgoing: final(self).outgoing, ..*old(self) }),
            looked(*old(self), *final(self), *s, signal, r.0, r.1@),
    {
        let cancelled = match self.outgoing.get(&s.id.key()) {
            Some(o) => o.cancel,
            None => false,
        };
        if cancelled {
            return self.finish_outgoing(s, None, Some("отменено".to_string()));
        }
        match signal {
            Some(OutSignal::Cancel) => self.finish_outgoing(
                s,
                None,
                Some("прервано получателем".to_string()),
            ),
            Some(OutSignal::Reject(_)) => self.finish_outgoing(
                s,
                None,
                Some("прервано получателем".to_string()),
            ),
            Some(OutSignal::Accept) => (Next::Read, Vec::new()),
            None => (Next::Read, Vec::new()),
        }
    }

    /// A piece of at most [`CHUNK_SIZE`] bytes of the file was read, nothing was
    /// left, or it could not be read; see [`picked`].
    pub fn chunk_read(&mut self, s: &FileSender, got: Result<Vec<u8>, String>) -> (r: (
        Next,
        Vec<Action>,
    ))
        requires
            old(self).wf(),
            got matches Ok(data) ==> data@.len() <= CHUNK_SIZE,
        ensures
            final(self).wf(),
            *final(self) == (Engine { outgoing: final(self).outgoing, ..*old(self) }),
            picked(*old(self), *final(self), *s, got, r.0, r.1@),
    {
        let data = match got {
            Ok(data) => data,
            Err(why) => return self.fail_outgoing(s, why.as_str()),
        };
        if data.len() == 0 {
            if s.offset != s.size {
                return self.fail_outgoing(s, "файл изменился во время отправки");
            }
            let mut acts: Vec<Action> = Vec::new();
            let told = self.send_to(s.to).is_ok();
            if told {
                acts.push(
                    Action::Send {
                        to: s.to,
                        msg: Message::FileDone(FileDone { id: s.id, sha256: s.sha256.clone() }),
                    },
                );
            }
            let (next, rest) = self.finish_outgoing(s, Some(s.path.clone()), None);
            let ghost tail = rest@;
            files::extend(&mut acts, rest);
            proof {
                if told {
                    assert(acts@.skip(1) =~= tail);
                } else {
                    assert(acts@ =~= tail);
                }
            }
            return (next, acts);
        }
        match self.send_to(s.to) {
            Err(why) => self.finish_outgoing(s, None, Some(why)),
            Ok(_) => (
                Next::Chunk(Message::FileChunk { id: s.id, offset: s.offset, data }),
                Vec::new(),
            ),
        }
    }

    /// A chunk of `n` bytes was sent, or could not be; see [`advanced`].
    pub fn chunk_sent(&mut self, s: &mut FileSender, n: usize, outcome: Result<(), String>) -> (r: (
        Next,
        Vec<Action>,
    ))
        requires
            old(self).wf(),
            old(s).wf(),
            n > 0,
            old(s).offset + n <= u64::MAX,
        ensures
            final(self).wf(),
            final(s).wf(),
            *final(self) == (Engine { outgoing: final(self).outgoing, ..*old(self) }),
            advanced(*old(self), *final(self), *old(s), *final(s), n, outcome, r.0, r.1@),
    {
        match outcome {
            Err(why) => self.finish_outgoing(s, None, Some(send_error(why.as_str()))),
            Ok(_) => {
                let mut acts: Vec<Action> = Vec::new();
                s.offset = s.offset + n as u64;
                s.chunk_no = s.chunk_no + 1;
                if s.chunk_no % CHUNKS_PER_EVENT == 0 {
                    acts.push(
                        Action::Emit(
                            EngineEvent::TransferProgress {
                                transfer: s.id,
                                done: s.offset,
                                total: s.size,
                                incoming: false,
                            },
                        ),
                    );
                }
                (Next::Poll, acts)
            },
        }
    }
}

/// Every message of a file that stays as it was hashed can be read by the
/// receiver: the offer, the chunks and the last one.
pub proof fn law_sent_file_is_readable(s: FileSender, m: Message, data: Seq<u8>)
    requires
        s.wf(),
        s.offset <= s.size,
        proto::is_sha256(s.sha256@),
        data.len() <= CHUNK_SIZE,
        is_offer(m, s) || is_chunk(m, s, data) || is_done(m, s),
    ensures
        proto::is_readable(m),
{
    match m {
        Message::FileOffer(o) => {
            proto::lemma_offer_bytes(o);
        },
        Message::FileDone(d) => {
            proto::lemma_done_bytes(d);
        },
        _ => {},
    }
}

/// A receiver that has taken all chunks so far takes the next one, and is then
/// up to date again.
pub proof fn law_chunks_follow_each_other(
    e: Engine,
    mid: Engine,
    post: Engine,
    was: FileSender,
    s: FileSender,
    data: Vec<u8>,
    m: Message,
    read: Seq<Action>,
    sent: Seq<Action>,
    t: IncomingTransfer,
    next: IncomingTransfer,
    r: Result<(), engine::transfer::TransferError>,
)
    requires
        picked(e, mid, was, Ok(data), Next::Chunk(m), read),
        advanced(mid, post, was, s, data.len(), Ok(()), Next::Poll, sent),
        was.offset + data.len() <= t.size,
        t.accepted,
        t.received == was.offset,
        engine::transfer::chunk_step(t, next, was.offset, data@, Ok(()), r),
    ensures
        m == (Message::FileChunk { id: was.id, offset: t.received, data: m->data }),
        m->data@ == data@,
        r is Ok,
        next.received == s.offset,
{
}

} // verus!
