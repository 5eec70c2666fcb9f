//! How a file is put together from its pieces and checked.

use vstd::prelude::*;
use crate::codec;
use crate::crypto;
use crate::engine::transfer;
use crate::engine::transfer::{FileDigest, IncomingTransfer, Opened, TransferError};
use crate::proto::TransferId;
use crate::security::fingerprint::DeviceId;
use crate::text;
use crate::util;

verus! {

/// A new transfer is what was offered, under a safe name and from the device
/// that offered it; nothing of it is approved or received yet.
pub proof fn law_new_transfer_is_the_offer(
    id: TransferId,
    from: DeviceId,
    from_key: Vec<u8>,
    raw_name: &str,
    size: u64,
    expected_sha: &str,
    now: u64,
    name: String,
    hash: String,
    r: IncomingTransfer,
)
    requires
        call_ensures(
            IncomingTransfer::new,
            (id, from, from_key, raw_name, size, expected_sha, now),
            r,
        ),
        call_ensures(util::sanitize_filename, (raw_name,), name),
        call_ensures(text::lower_str, (expected_sha,), hash),
    ensures
        r.id == id,
        r.from == from,
        r.from_key == from_key,
        r.name@ == name@,
        r.size == size,
        r.expected_sha@ == hash@,
        r.received == 0,
        r.contents().len() == 0,
        !r.approved,
        !r.accepted,
        r.started == now,
        r.part_path@.len() == 0,
{
}

/// Once its file is open a transfer is accepted, and keeps the path of the file
/// under its identifier; a file that cannot be opened is an error, and nothing
/// is accepted.
pub proof fn law_opening_accepts(
    t: &mut IncomingTransfer,
    dir: &str,
    opened: Opened,
    path: String,
    r: Result<(), TransferError>,
)
    requires
        call_ensures(IncomingTransfer::accept, (t, dir, opened), r),
        !old(t).accepted,
        call_ensures(transfer::part_path, (dir, old(t).id), path),
    ensures
        opened is Ready ==> r is Ok && final(t).accepted && final(t).approved && final(t).part_path@ == path@,
        !(opened is Ready) ==> !final(t).accepted && (r matches Err(e) && e is Io),
        final(t).received == old(t).received,
        final(t).size == old(t).size,
        final(t).expected_sha == old(t).expected_sha,
        final(t).name == old(t).name,
        final(t).contents() == old(t).contents(),
{
}

/// What is not verified yet lies under the identifier of its transfer, never
/// under a name that the peer chose.
pub proof fn law_part_is_named_by_the_identifier(
    dir: &str,
    id: TransferId,
    shown: String,
    name: &str,
    expected: String,
    r: String,
)
    requires
        call_ensures(transfer::part_path, (dir, id), r),
        call_ensures(TransferId::text, (&id,), shown),
        name@ == shown@ + ".part"@,
        call_ensures(util::join_path, (dir, name), expected),
    ensures
        r@ == expected@,
{
}

/// A piece is taken if and only if the transfer is accepted, it follows what is
/// there, and no more comes than was offered.
pub proof fn law_which_pieces_are_taken(
    t: &IncomingTransfer,
    offset: u64,
    len: usize,
    r: Result<(), TransferError>,
)
    requires
        call_ensures(IncomingTransfer::check_chunk, (t, offset, len), r),
    ensures
        r is Ok <==> t.accepted && offset == t.received && t.received + len <= t.size,
        !t.accepted ==> (r matches Err(e) && e is NotAccepted),
        t.accepted && offset != t.received ==> (r matches Err(TransferError::BadOffset {
            expected,
            got,
        }) && expected == t.received && got == offset),
        t.accepted && offset == t.received && t.received + len > t.size ==> (r matches Err(e)
            && e is TooLarge),
{
}

/// A piece that is taken and was written is put behind the others; any other
/// one changes nothing.
pub proof fn law_pieces_are_put_together(
    t: &mut IncomingTransfer,
    before: &IncomingTransfer,
    offset: u64,
    data: &[u8],
    len: usize,
    written: Result<(), String>,
    allowed: Result<(), TransferError>,
    r: Result<(), TransferError>,
)
    requires
        *before == *old(t),
        len == data@.len(),
        call_ensures(IncomingTransfer::check_chunk, (before, offset, len), allowed),
        call_ensures(IncomingTransfer::write_chunk, (t, offset, data, written), r),
    ensures
        r is Ok <==> allowed is Ok && written is Ok,
        r is Ok ==> final(t).contents() == old(t).contents() + data@ && final(t).received == old(t).received + data@.len(),
        r is Err ==> *final(t) == *old(t),
        allowed matches Err(e) ==> r == Err::<(), TransferError>(e),
        final(t).size == old(t).size,
        final(t).expected_sha == old(t).expected_sha,
        final(t).part_path == old(t).part_path,
        final(t).name == old(t).name,
{
}

/// A file is good if and only if it could be written out, all of it is there,
/// and its hash is the one that was offered.
pub proof fn law_which_files_are_good(
    t: IncomingTransfer,
    flushed: Result<(), String>,
    r: (String, Result<(), TransferError>),
)
    requires
        call_ensures(IncomingTransfer::finish, (t, flushed), r),
    ensures
        r.1 is Ok <==> flushed is Ok && t.received == t.size && codec::hex(
            crypto::sha256(t.contents()),
        ) == t.expected_sha@,
        flushed is Err ==> (r.1 matches Err(e) && e is Io),
        flushed is Ok && t.received != t.size ==> (r.1 matches Err(e) && e is Incomplete),
        flushed is Ok && t.received == t.size && r.1 is Err ==> (r.1 matches Err(e)
            && e is HashMismatch),
        r.0 == t.part_path,
{
}

/// A file that one side digests, offers and sends whole is good on the other
/// side.
pub proof fn law_sent_file_is_good(
    d: FileDigest,
    digest: (String, u64),
    t: IncomingTransfer,
    r: (String, Result<(), TransferError>),
)
    requires
        call_ensures(FileDigest::finish, (d,), digest),
        t.contents() == d.contents(),
        t.received == t.contents().len(),
        t.size == digest.1,
        t.expected_sha@ == digest.0@,
        call_ensures(IncomingTransfer::finish, (t, Ok::<(), String>(())), r),
    ensures
        r.1 is Ok,
{
}

/// All of a file goes into its digest, piece by piece and in order.
pub proof fn law_digest_covers_the_file(
    fresh: FileDigest,
    d: &mut FileDigest,
    piece: &[u8],
    whole: FileDigest,
    r: (String, u64),
)
    requires
        call_ensures(FileDigest::new, (), fresh),
        call_ensures(FileDigest::update, (d, piece), ()),
        call_ensures(FileDigest::finish, (whole,), r),
    ensures
        fresh.contents().len() == 0,
        final(d).contents() == old(d).contents() + piece@,
        r.0@ == codec::hex(crypto::sha256(whole.contents())),
        r.0@.len() == 64,
        r.1 == whole.contents().len(),
{
}

/// Whether all is there is a matter of the count alone.
pub proof fn law_complete_is_all_there(t: &IncomingTransfer, r: bool)
    requires
        call_ensures(IncomingTransfer::is_complete, (t,), r),
    ensures
        r <==> t.received == t.size,
{
}

/// What a dropped transfer leaves behind is its file, if it has one.
pub proof fn law_dropped_transfer_leaves_its_file(t: IncomingTransfer, r: Option<String>)
    requires
        call_ensures(IncomingTransfer::abort, (t,), r),
    ensures
        t.part_path@.len() > 0 ==> r == Some(t.part_path),
        t.part_path@.len() == 0 ==> r is None,
{
}

} // verus!
