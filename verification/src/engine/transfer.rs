//! Receiving a file safely.
//!
//! Every byte here comes from the network, so the rules are strict:
//!
//! * data is written to a quarantine file inside our own data directory, never
//!   straight into the user's Downloads folder;
//! * the file name is sanitised (see [`crate::util::sanitize_filename`]) and
//!   may not contain a path separator, so the final `join` cannot escape;
//! * chunks must arrive strictly in order and may not push the total past the
//!   advertised size;
//! * the SHA-256 must match what was offered, otherwise the file is deleted.
//!
//! The file itself is handled by the caller, who says how that went.

use vstd::prelude::*;
use vstd::string::*;
use crate::codec;
use crate::crypto;
use crate::crypto::Hasher;
use crate::proto;
use crate::proto::TransferId;
use crate::security::fingerprint::DeviceId;
use crate::text;
use crate::util;

verus! {

#[derive(Debug, Clone)]
pub enum TransferError {
    NotAccepted,
    BadOffset { expected: u64, got: u64 },
    TooLarge,
    Incomplete { received: u64, size: u64 },
    HashMismatch,
    Io(String),
}

/// How opening the quarantine file went.
#[derive(Debug)]
pub enum Opened {
    Ready,
    /// The directory could not be made.
    NoDirectory(String),
    /// The file could not be created.
    NoFile(String),
}

pub struct IncomingTransfer {
    pub id: TransferId,
    pub from: DeviceId,
    /// The peer's static public key, so a chunk from another connection that
    /// guessed the id is still refused.
    pub from_key: Vec<u8>,
    /// Already sanitised; guaranteed free of path separators.
    pub name: String,
    pub size: u64,
    pub expected_sha: String,
    pub received: u64,
    /// The transfer was approved: its quarantine file was asked for.
    pub approved: bool,
    /// The quarantine file is open.
    pub accepted: bool,
    pub started: u64,
    /// Empty until the quarantine file has a name.
    pub part_path: String,
    pub hasher: Hasher,
}

impl TransferError {
    pub open spec fn message(&self) -> Seq<char> {
        match self {
            TransferError::NotAccepted => "transfer was not accepted"@,
            TransferError::BadOffset {
                expected,
                got,
            } => "chunk out of order (expected offset "@ + text::decimal(*expected as nat)
                + ", got "@ + text::decimal(*got as nat) + ")"@,
            TransferError::TooLarge => "peer sent more data than it offered"@,
            TransferError::Incomplete { received, size } => "incomplete: "@ + text::decimal(
                *received as nat,
            ) + " of "@ + text::decimal(*size as nat) + " bytes"@,
            TransferError::HashMismatch => "content hash does not match the offer"@,
            TransferError::Io(why) => "io: "@ + why@,
        }
    }

    /// The error in words.
    pub fn text(&self) -> (r: String)
        ensures
            r@ == self.message(),
    {
        match self {
            TransferError::NotAccepted => "transfer was not accepted".to_string(),
            TransferError::BadOffset { expected, got } => {
                let mut r = "chunk out of order (expected offset ".to_string();
                r.append(text::decimal_text(*expected).as_str());
                r.append(", got ");
                r.append(text::decimal_text(*got).as_str());
                r.append(")");
                r
            },
            TransferError::TooLarge => "peer sent more data than it offered".to_string(),
            TransferError::Incomplete { received, size } => {
                let mut r = "incomplete: ".to_string();
                r.append(text::decimal_text(*received).as_str());
                r.append(" of ");
                r.append(text::decimal_text(*size).as_str());
                r.append(" bytes");
                r
            },
            TransferError::HashMismatch => "content hash does not match the offer".to_string(),
            TransferError::Io(why) => {
                let mut r = "io: ".to_string();
                r.append(why.as_str());
                r
            },
        }
    }
}

/// The path of the quarantine file of a transfer: named by the transfer id, not
/// by the name that the peer supplied, so nothing the peer controls reaches the
/// filesystem until the transfer is verified.
pub open spec fn part_of(dir: Seq<char>, id: TransferId) -> Seq<char> {
    util::joined(dir, codec::hex(id.0@) + ".part"@)
}

/// See [`part_of`].
pub fn part_path(dir: &str, id: TransferId) -> (r: String)
    ensures
        r@ == part_of(dir@, id),
{
    let mut name = id.text();
    name.append(".part");
    util::join_path(dir, name.as_str())
}

impl IncomingTransfer {
    /// The bytes that were received so far.
    pub open spec fn contents(&self) -> Seq<u8> {
        crypto::hashed(self.hasher)
    }

    /// As many bytes as are counted, never more than were offered, and none
    /// before the transfer was accepted.
    pub open spec fn wf(&self) -> bool {
        &&& self.contents().len() == self.received
        &&& self.received <= self.size
        &&& !self.accepted ==> self.received == 0
        &&& self.accepted ==> self.approved && self.part_path@.len() > 0
        &&& util::separator_free(self.name@)
    }

    pub fn new(
        id: TransferId,
        from: DeviceId,
        from_key: Vec<u8>,
        raw_name: &str,
        size: u64,
        expected_sha: &str,
        now: u64,
    ) -> (r: Self)
        ensures
            r.wf(),
            r.id == id,
            r.from == from,
            r.from_key == from_key,
            r.name@ == util::sanitized(raw_name@),
            r.size == size,
            r.expected_sha@ == text::lower_all(expected_sha@),
            r.received == 0,
            !r.approved,
            !r.accepted,
            r.started == now,
            r.part_path@.len() == 0,
            r.contents().len() == 0,
    {
        proof {
            util::law_sanitized_is_safe(raw_name@);
        }
        IncomingTransfer {
            id,
            from,
            from_key,
            name: util::sanitize_filename(raw_name),
            size,
            expected_sha: text::lower_str(expected_sha),
            received: 0,
            approved: false,
            accepted: false,
            started: now,
            part_path: String::new(),
            hasher: Hasher::new(),
        }
    }

    /// Takes note of how opening the quarantine file went. Called only after
    /// the user (or an explicit auto-accept rule) approved the transfer. A
    /// transfer that was accepted already stays as it is.
    pub fn accept(&mut self, incoming_dir: &str, opened: Opened) -> (r: Result<(), TransferError>)
        requires
            old(self).wf(),
        ensures
            final(self).wf(),
            accept_step(*old(self), *final(self), incoming_dir@, opened),
            if old(self).accepted {
                r is Ok
            } else {
                match opened {
                    Opened::Ready => r is Ok,
                    Opened::NoDirectory(why) => r matches Err(e) && e == TransferError::Io(why),
                    Opened::NoFile(why) => r matches Err(e) && e == TransferError::Io(why),
                }
            },
    {
        if self.accepted {
            return Ok(());
        }
        match opened {
            Opened::NoDirectory(why) => Err(TransferError::Io(why)),
            Opened::NoFile(why) => {
                proof {
                    lemma_part_nonempty(incoming_dir@, self.id);
                }
                self.part_path = part_path(incoming_dir, self.id);
                Err(TransferError::Io(why))
            },
            Opened::Ready => {
                proof {
                    lemma_part_nonempty(incoming_dir@, self.id);
                }
                self.part_path = part_path(incoming_dir, self.id);
                self.approved = true;
                self.accepted = true;
                Ok(())
            },
        }
    }

    /// What is wrong with a chunk, if anything is.
    pub open spec fn chunk_fault(&self, offset: u64, len: int) -> Option<TransferError> {
        if !self.accepted {
            Some(TransferError::NotAccepted)
        } else if offset != self.received {
            Some(TransferError::BadOffset { expected: self.received, got: offset })
        } else if self.received + len > self.size {
            Some(TransferError::TooLarge)
        } else {
            None
        }
    }

    /// Whether a chunk may be written. Checked before writing, so a hostile
    /// peer cannot fill the disk past what it declared.
    pub fn check_chunk(&self, offset: u64, len: usize) -> (r: Result<(), TransferError>)
        requires
            self.wf(),
        ensures
            match r {
                Ok(_) => self.chunk_fault(offset, len as int) is None,
                Err(e) => self.chunk_fault(offset, len as int) == Some(e),
            },
    {
        if !self.accepted {
            return Err(TransferError::NotAccepted);
        }
        if offset != self.received {
            return Err(TransferError::BadOffset { expected: self.received, got: offset });
        }
        if len as u64 > self.size - self.received {
            return Err(TransferError::TooLarge);
        }
        Ok(())
    }

    /// Takes a chunk over. `written` is how writing it to the quarantine file
    /// went; it counts only where the chunk may be written at all.
    pub fn write_chunk(&mut self, offset: u64, data: &[u8], written: Result<(), String>) -> (r:
        Result<(), TransferError>)
        requires
            old(self).wf(),
        ensures
            final(self).wf(),
            chunk_step(*old(self), *final(self), offset, data@, written, r),
    {
        match self.check_chunk(offset, data.len()) {
            Ok(_) => {},
            Err(e) => return Err(e),
        }
        match written {
            Ok(_) => {},
            Err(why) => return Err(TransferError::Io(why)),
        }
        self.hasher.update(data);
        self.received = self.received + data.len() as u64;
        Ok(())
    }

    pub fn is_complete(&self) -> (r: bool)
        ensures
            r == (self.received == self.size),
    {
        self.received == self.size
    }

    /// Why the file may not be published, if it may not: it could not be
    /// written out, bytes are missing, or they are not the ones offered.
    pub open spec fn finish_fault(&self, flushed: Result<(), String>) -> Option<TransferError> {
        if flushed is Err {
            Some(TransferError::Io(flushed->Err_0))
        } else if self.received != self.size {
            Some(TransferError::Incomplete { received: self.received, size: self.size })
        } else if codec::hex(crypto::sha256(self.contents())) != self.expected_sha@ {
            Some(TransferError::HashMismatch)
        } else {
            None
        }
    }

    /// Verifies a transfer before it is published. Hands back the path of the
    /// quarantine file, to be moved or, on any failure, to be removed, so that
    /// a rejected transfer never leaves anything behind.
    pub fn finish(self, flushed: Result<(), String>) -> (r: (String, Result<(), TransferError>))
        requires
            self.wf(),
        ensures
            r.0 == self.part_path,
            match r.1 {
                Ok(_) => self.finish_fault(flushed) is None,
                Err(e) => self.finish_fault(flushed) == Some(e),
            },
    {
        let IncomingTransfer { part_path, hasher, received, size, expected_sha, .. } = self;
        match flushed {
            Ok(_) => {},
            Err(why) => return (part_path, Err(TransferError::Io(why))),
        }
        if received != size {
            return (part_path, Err(TransferError::Incomplete { received, size }));
        }
        let actual = codec::hex_encode(hasher.finalize().as_slice());
        if !text::str_eq(actual.as_str(), expected_sha.as_str()) {
            return (part_path, Err(TransferError::HashMismatch));
        }
        (part_path, Ok(()))
    }

    /// Drops a transfer that was rejected or failed. Hands back the path of the
    /// partial data to remove, if there may be any.
    pub fn abort(self) -> (r: Option<String>)
        ensures
            match r {
                Some(p) => p == self.part_path && p@.len() > 0,
                None => self.part_path@.len() == 0,
            },
    {
        if self.part_path.as_str().is_empty() {
            None
        } else {
            Some(self.part_path)
        }
    }
}

/// How a transfer changes when its quarantine file is opened, or is not. One
/// that was accepted already does not.
pub open spec fn accept_step(
    pre: IncomingTransfer,
    post: IncomingTransfer,
    incoming_dir: Seq<char>,
    opened: Opened,
) -> bool {
    if pre.accepted {
        post == pre
    } else {
        match opened {
            Opened::NoDirectory(_) => post == pre,
            Opened::NoFile(_) => {
                &&& post == (IncomingTransfer { part_path: post.part_path, ..pre })
                &&& post.part_path@ == part_of(incoming_dir, pre.id)
            },
            Opened::Ready => {
                &&& post == (IncomingTransfer {
                    part_path: post.part_path,
                    approved: true,
                    accepted: true,
                    ..pre
                })
                &&& post.part_path@ == part_of(incoming_dir, pre.id)
            },
        }
    }
}

/// The quarantine file of a transfer holds the bytes that were hashed.
pub open spec fn mirrors(t: IncomingTransfer, file: Seq<u8>) -> bool {
    t.accepted ==> file == t.contents()
}

/// How a transfer changes with a chunk, and what the sender is told.
pub open spec fn chunk_step(
    pre: IncomingTransfer,
    post: IncomingTransfer,
    offset: u64,
    data: Seq<u8>,
    written: Result<(), String>,
    r: Result<(), TransferError>,
) -> bool {
    match pre.chunk_fault(offset, data.len() as int) {
        Some(e) => r == Err::<(), _>(e) && post == pre,
        None => match written {
            Err(why) => r == Err::<(), _>(TransferError::Io(why)) && post == pre,
            Ok(_) => {
                &&& r == Ok::<_, TransferError>(())
                &&& post.contents() == pre.contents() + data
                &&& post.received == pre.received + data.len()
                &&& post == (IncomingTransfer {
                    hasher: post.hasher,
                    received: post.received,
                    ..pre
                })
            },
        },
    }
}

proof fn lemma_part_nonempty(dir: Seq<char>, id: TransferId)
    ensures
        part_of(dir, id).len() > 0,
{
    codec::lemma_hex_len(id.0@);
}

/// The size and the SHA-256 of a file that is read piece by piece.
pub struct FileDigest {
    pub hasher: Hasher,
    pub total: u64,
}

impl FileDigest {
    pub open spec fn contents(&self) -> Seq<u8> {
        crypto::hashed(self.hasher)
    }

    pub open spec fn wf(&self) -> bool {
        self.contents().len() == self.total
    }

    pub fn new() -> (r: Self)
        ensures
            r.wf(),
            r.contents().len() == 0,
    {
        FileDigest { hasher: Hasher::new(), total: 0 }
    }

    /// Takes the next piece of the file.
    pub fn update(&mut self, piece: &[u8])
        requires
            old(self).wf(),
            old(self).total + piece@.len() <= u64::MAX,
        ensures
            final(self).wf(),
            final(self).contents() == old(self).contents() + piece@,
    {
        self.hasher.update(piece);
        self.total = self.total + piece.len() as u64;
    }

    /// The hash in lowercase hex and the size.
    pub fn finish(self) -> (r: (String, u64))
        requires
            self.wf(),
        ensures
            r.0@ == codec::hex(crypto::sha256(self.contents())),
            proto::is_sha256(r.0@),
            r.1 == self.contents().len(),
    {
        let digest = self.hasher.finalize();
        proof {
            codec::lemma_hex_len(digest@);
            codec::lemma_hex_digits(digest@);
        }
        (codec::hex_encode(digest.as_slice()), self.total)
    }
}

/// A file that is received with the hash that its sender computed is the file
/// that was sent, as far as SHA-256 tells files apart: the two have the same
/// digest, and the same size.
pub proof fn law_published_file_is_the_offered_one(t: IncomingTransfer, sent: Seq<u8>)
    requires
        t.wf(),
        t.size == sent.len(),
        t.expected_sha@ == codec::hex(crypto::sha256(sent)),
        t.finish_fault(Ok(())) is None,
    ensures
        crypto::sha256(t.contents()) == crypto::sha256(sent),
        t.contents().len() == sent.len(),
{
    codec::lemma_hex_injective(crypto::sha256(t.contents()), crypto::sha256(sent));
}

/// A quarantine file that was just created holds what was hashed: nothing.
pub proof fn law_opened_file_mirrors(
    pre: IncomingTransfer,
    post: IncomingTransfer,
    dir: Seq<char>,
    opened: Opened,
)
    requires
        pre.wf(),
        !pre.accepted,
        accept_step(pre, post, dir, opened),
    ensures
        mirrors(post, Seq::empty()),
{
    assert(pre.contents() =~= Seq::<u8>::empty());
}

/// A quarantine file to whose end each chunk was written that the transfer took
/// over holds what was hashed.
pub proof fn law_written_file_mirrors(
    pre: IncomingTransfer,
    post: IncomingTransfer,
    offset: u64,
    data: Seq<u8>,
    file: Seq<u8>,
)
    requires
        pre.wf(),
        mirrors(pre, file),
        chunk_step(pre, post, offset, data, Ok(()), Ok(())),
    ensures
        mirrors(post, file + data),
        offset == file.len(),
{
}

/// A file that may be published has the size and the SHA-256 that were offered:
/// the file itself, not only what was counted and hashed.
pub proof fn law_publishable_file_is_verified(
    t: IncomingTransfer,
    flushed: Result<(), String>,
    file: Seq<u8>,
)
    requires
        t.wf(),
        t.accepted,
        mirrors(t, file),
        t.finish_fault(flushed) is None,
    ensures
        file.len() == t.size,
        codec::hex(crypto::sha256(file)) == t.expected_sha@,
{
}

/// A transfer and what stands in its quarantine file before and after one call
/// of [`IncomingTransfer::accept`] or [`IncomingTransfer::write_chunk`]. Opening
/// the file for the first time empties it, and a chunk that is written comes to
/// stand at its end. Nothing else changes it: what could not be written left
/// nothing behind.
pub open spec fn follows(
    pre: IncomingTransfer,
    file: Seq<u8>,
    post: IncomingTransfer,
    next: Seq<u8>,
) -> bool {
    ||| exists|dir: Seq<char>, opened: Opened| #[trigger]
        accept_step(pre, post, dir, opened) && next == if !pre.accepted && opened is Ready {
            Seq::empty()
        } else {
            file
        }
    ||| exists|
        offset: u64,
        data: Seq<u8>,
        written: Result<(), String>,
        r: Result<(), TransferError>,
    | #[trigger]
        chunk_step(pre, post, offset, data, written, r) && next == if r is Ok {
            file + data
        } else {
            file
        }
}

/// A transfer and its quarantine file over any number of calls, from the offer
/// on; see [`follows`].
pub open spec fn is_run(
    ts: Seq<IncomingTransfer>,
    files: Seq<Seq<u8>>,
    size: u64,
    offered_sha: Seq<char>,
) -> bool {
    &&& 0 < ts.len() == files.len()
    &&& ts[0].size == size
    &&& ts[0].expected_sha@ == text::lower_all(offered_sha)
    &&& ts[0].received == 0
    &&& !ts[0].accepted
    &&& ts[0].contents().len() == 0
    &&& files[0].len() == 0
    &&& forall|i: int, j: int|
        0 <= i && j == i + 1 && j < ts.len() ==> #[trigger] follows(ts[i], files[i], ts[j], files[j])
}

proof fn lemma_run(
    ts: Seq<IncomingTransfer>,
    files: Seq<Seq<u8>>,
    size: u64,
    offered_sha: Seq<char>,
    n: int,
)
    requires
        is_run(ts, files, size, offered_sha),
        0 <= n < ts.len(),
    ensures
        ts[n].size == size,
        ts[n].id == ts[0].id,
        ts[n].expected_sha@ == text::lower_all(offered_sha),
        ts[n].received == ts[n].contents().len(),
        !ts[n].accepted ==> ts[n].received == 0,
        files[n] == ts[n].contents(),
    decreases n,
{
    if n > 0 {
        lemma_run(ts, files, size, offered_sha, n - 1);
        assert(follows(ts[n - 1], files[n - 1], ts[n], files[n]));
        let pre = ts[n - 1];
        if exists|dir: Seq<char>, opened: Opened| #[trigger]
            accept_step(pre, ts[n], dir, opened) && files[n] == if !pre.accepted
                && opened is Ready {
                Seq::empty()
            } else {
                files[n - 1]
            } {
            assert(files[n] =~= ts[n].contents());
        }
    } else {
        assert(files[0] =~= ts[0].contents());
    }
}

/// Whatever sequence of calls a transfer goes through after the offer: if it may
/// be published in the end, its file has the size and the SHA-256 that were
/// offered.
pub proof fn law_run_ends_in_the_offered_file(
    ts: Seq<IncomingTransfer>,
    files: Seq<Seq<u8>>,
    size: u64,
    offered_sha: Seq<char>,
    flushed: Result<(), String>,
)
    requires
        is_run(ts, files, size, offered_sha),
        ts.last().finish_fault(flushed) is None,
    ensures
        files.last().len() == size,
        codec::hex(crypto::sha256(files.last())) == text::lower_all(offered_sha),
{
    lemma_run(ts, files, size, offered_sha, ts.len() - 1);
}

/// However far a transfer has come, its file is never larger than was offered,
/// and is empty until the transfer is accepted.
pub proof fn law_run_stays_within_the_offer(
    ts: Seq<IncomingTransfer>,
    files: Seq<Seq<u8>>,
    size: u64,
    offered_sha: Seq<char>,
    n: int,
)
    requires
        is_run(ts, files, size, offered_sha),
        0 <= n < ts.len(),
    ensures
        files[n].len() <= size,
        !ts[n].accepted ==> files[n].len() == 0,
    decreases n,
{
    lemma_run(ts, files, size, offered_sha, n);
    if n > 0 {
        law_run_stays_within_the_offer(ts, files, size, offered_sha, n - 1);
        lemma_run(ts, files, size, offered_sha, n - 1);
        assert(follows(ts[n - 1], files[n - 1], ts[n], files[n]));
    }
}

/// A transfer that received what was offered passes.
pub proof fn law_complete_transfer_passes(t: IncomingTransfer, sent: Seq<u8>)
    requires
        t.wf(),
        t.contents() == sent,
        t.size == sent.len(),
        t.expected_sha@ == codec::hex(crypto::sha256(sent)),
    ensures
        t.finish_fault(Ok(())) is None,
{
}

/// A transfer never holds more than it was offered, whatever is sent; and what
/// it holds only ever grows at its end.
pub proof fn law_chunks_only_append(
    pre: IncomingTransfer,
    post: IncomingTransfer,
    offset: u64,
    data: Seq<u8>,
    written: Result<(), String>,
    r: Result<(), TransferError>,
)
    requires
        pre.wf(),
        post.wf(),
        chunk_step(pre, post, offset, data, written, r),
    ensures
        post.contents().len() <= post.size,
        post.size == pre.size,
        r is Ok ==> offset == pre.contents().len() && post.contents() == pre.contents() + data,
        r is Err ==> post == pre,
{
}

} // verus!
