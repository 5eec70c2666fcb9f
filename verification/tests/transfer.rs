use sha2::{Digest, Sha256};
use syncmob::engine::transfer::{part_path, FileDigest, IncomingTransfer, Opened, TransferError};
use syncmob::proto::TransferId;
use syncmob::security::DeviceId;
use syncmob::util::{unique_path, UniquePath};

fn sha_of(data: &[u8]) -> String {
    let mut h = Sha256::new();
    h.update(data);
    hex::encode(h.finalize())
}

fn setup(data: &[u8], name: &str) -> IncomingTransfer {
    IncomingTransfer::new(
        TransferId::random(),
        DeviceId::parse("0011223344556677").unwrap(),
        vec![1u8; 32],
        name,
        data.len() as u64,
        &sha_of(data),
        0,
    )
}

/// The first path that is not taken.
fn settle(mut u: UniquePath, taken: &[&str]) -> String {
    while !u.settled() {
        let there = taken.contains(&u.path().as_str());
        u.answer(there);
    }
    u.path()
}

#[test]
fn happy_path() {
    let data = b"hello syncmob".repeat(1000);
    let mut t = setup(&data, "notes.txt");
    t.accept("inbox", Opened::Ready).unwrap();
    let mut part: Vec<u8> = Vec::new();
    for (i, c) in data.chunks(4096).enumerate() {
        t.check_chunk((i * 4096) as u64, c.len()).unwrap();
        part.extend(c);
        t.write_chunk((i * 4096) as u64, c, Ok(())).unwrap();
    }
    assert!(t.is_complete());
    let name = t.name.clone();
    let expected = part_path("inbox", t.id);
    let (path, verdict) = t.finish(Ok(()));
    verdict.unwrap();
    assert_eq!(path, expected);
    assert_eq!(settle(unique_path("downloads", &name), &[]), "downloads/notes.txt");
    assert_eq!(part, data);
}

#[test]
fn traversal_in_the_offered_name_is_neutralised() {
    let data = b"x";
    let mut t = setup(data, "../../../../tmp/evil.sh");
    assert_eq!(t.name, "evil.sh");
    t.accept("incoming", Opened::Ready).unwrap();
    t.write_chunk(0, data, Ok(())).unwrap();
    let name = t.name.clone();
    let (_, verdict) = t.finish(Ok(()));
    verdict.unwrap();
    assert_eq!(settle(unique_path("downloads", &name), &[]), "downloads/evil.sh");
}

#[test]
fn chunks_must_be_in_order() {
    let data = b"abcdef";
    let mut t = setup(data, "a.bin");
    t.accept("incoming", Opened::Ready).unwrap();
    t.write_chunk(0, b"abc", Ok(())).unwrap();
    assert!(matches!(
        t.write_chunk(99, b"def", Ok(())),
        Err(TransferError::BadOffset { expected: 3, got: 99 })
    ));
}

#[test]
fn cannot_exceed_the_offered_size() {
    let data = b"abc";
    let mut t = setup(data, "a.bin");
    t.accept("incoming", Opened::Ready).unwrap();
    assert!(matches!(
        t.write_chunk(0, b"abcdefghij", Ok(())),
        Err(TransferError::TooLarge)
    ));
}

#[test]
fn writing_before_acceptance_is_refused() {
    let mut t = setup(b"abc", "a.bin");
    assert!(matches!(
        t.write_chunk(0, b"abc", Ok(())),
        Err(TransferError::NotAccepted)
    ));
}

#[test]
fn hash_mismatch_deletes_the_file() {
    let mut t = IncomingTransfer::new(
        TransferId::random(),
        DeviceId::parse("0011223344556677").unwrap(),
        vec![1u8; 32],
        "a.bin",
        3,
        &sha_of(b"GOOD"), // does not match what we will actually send
        0,
    );
    t.accept("incoming", Opened::Ready).unwrap();
    t.write_chunk(0, b"BAD", Ok(())).unwrap();
    let part = part_path("incoming", t.id);
    let (path, verdict) = t.finish(Ok(()));
    assert!(matches!(verdict, Err(TransferError::HashMismatch)));
    // What is handed back on failure is to be removed.
    assert_eq!(path, part);
}

#[test]
fn incomplete_transfer_is_refused() {
    let data = b"abcdef";
    let mut t = setup(data, "a.bin");
    t.accept("incoming", Opened::Ready).unwrap();
    t.write_chunk(0, b"abc", Ok(())).unwrap();
    assert!(matches!(
        t.finish(Ok(())).1,
        Err(TransferError::Incomplete { received: 3, size: 6 })
    ));
}

#[test]
fn existing_files_are_never_overwritten() {
    let data = b"new";
    let mut t = setup(data, "a.txt");
    t.accept("incoming", Opened::Ready).unwrap();
    t.write_chunk(0, data, Ok(())).unwrap();
    let name = t.name.clone();
    t.finish(Ok(())).1.unwrap();
    assert_eq!(
        settle(unique_path("downloads", &name), &["downloads/a.txt"]),
        "downloads/a (1).txt"
    );
}

#[test]
fn abort_removes_partial_data() {
    let mut t = setup(b"abcdef", "a.bin");
    t.accept("incoming", Opened::Ready).unwrap();
    t.write_chunk(0, b"abc", Ok(())).unwrap();
    let part = part_path("incoming", t.id);
    assert_eq!(t.abort(), Some(part));
    assert_eq!(setup(b"abc", "a.bin").abort(), None);
}

#[test]
fn hash_file_matches() {
    let data = vec![3u8; 700_000];
    let mut d = FileDigest::new();
    for piece in data.chunks(256 * 1024) {
        d.update(piece);
    }
    let (h, n) = d.finish();
    assert_eq!(n, data.len() as u64);
    assert_eq!(h, sha_of(&data));
}

#[test]
fn failures_of_the_disk_are_told() {
    let mut t = setup(b"abc", "a.bin");
    assert!(matches!(
        t.accept("incoming", Opened::NoDirectory("ro".into())),
        Err(TransferError::Io(_))
    ));
    assert!(matches!(
        t.accept("incoming", Opened::NoFile("full".into())),
        Err(TransferError::Io(why)) if why == "full"
    ));
    t.accept("incoming", Opened::Ready).unwrap();
    assert!(matches!(
        t.write_chunk(0, b"abc", Err("full".into())),
        Err(TransferError::Io(why)) if why == "full"
    ));
    t.write_chunk(0, b"abc", Ok(())).unwrap();
    assert!(matches!(t.finish(Err("sync".into())).1, Err(TransferError::Io(_))));
}

#[test]
fn transfer_errors_are_put_in_words() {
    assert_eq!(
        TransferError::Incomplete { received: 1, size: 2 }.text(),
        "incomplete: 1 of 2 bytes"
    );
    assert_eq!(
        TransferError::HashMismatch.text(),
        "content hash does not match the offer"
    );
    assert_eq!(TransferError::Io("x".into()).text(), "io: x");
}

#[test]
fn quarantine_files_are_named_by_the_transfer() {
    let id = TransferId([0xab; 16]);
    assert_eq!(part_path("in", id), format!("in/{}.part", "ab".repeat(16)));
}

#[test]
fn the_offered_hash_may_be_in_capitals() {
    let data = b"abc";
    let mut t = IncomingTransfer::new(
        TransferId::random(),
        DeviceId::parse("0011223344556677").unwrap(),
        vec![1u8; 32],
        "a",
        3,
        &sha_of(data).to_uppercase(),
        0,
    );
    t.accept("in", Opened::Ready).unwrap();
    t.write_chunk(0, data, Ok(())).unwrap();
    assert!(t.finish(Ok(())).1.is_ok());
}

#[test]
fn a_second_acceptance_changes_nothing() {
    let data = b"abcdef";
    let mut t = setup(data, "a.bin");
    t.accept("incoming", Opened::Ready).unwrap();
    t.write_chunk(0, b"abc", Ok(())).unwrap();
    let part = t.part_path.clone();
    t.accept("elsewhere", Opened::Ready).unwrap();
    t.accept("elsewhere", Opened::NoFile("full".into())).unwrap();
    assert_eq!(t.part_path, part);
    assert_eq!(t.received, 3);
    t.write_chunk(3, b"def", Ok(())).unwrap();
    t.finish(Ok(())).1.unwrap();
}

#[test]
fn whatever_happens_only_the_offered_file_passes() {
    let data = b"abcdef";
    for order in 0..32u32 {
        let mut t = setup(data, "a.bin");
        let mut file: Vec<u8> = vec![9; 4];
        let steps: [(u64, &[u8]); 5] = [(0, b"abc"), (3, b"xyz"), (3, b"def"), (1, b"q"), (6, b"")];
        for (i, (offset, piece)) in steps.iter().enumerate() {
            if order & (1 << i) != 0 {
                if !t.accepted {
                    file.clear();
                }
                t.accept("incoming", Opened::Ready).unwrap();
            }
            if t.write_chunk(*offset, piece, Ok(())).is_ok() {
                file.extend(*piece);
            }
        }
        let accepted = t.accepted;
        if t.finish(Ok(())).1.is_ok() {
            assert!(accepted);
            assert_eq!(file.len(), data.len());
            assert_eq!(sha_of(&file), sha_of(data));
        }
    }
    let mut t = setup(data, "a.bin");
    t.accept("incoming", Opened::Ready).unwrap();
    t.accept("incoming", Opened::Ready).unwrap();
    assert!(t.write_chunk(3, b"def", Ok(())).is_err());
    t.write_chunk(0, b"abc", Ok(())).unwrap();
    assert!(t.write_chunk(3, b"def", Err("full".into())).is_err());
    t.write_chunk(3, b"def", Ok(())).unwrap();
    assert!(t.finish(Ok(())).1.is_ok());
}
