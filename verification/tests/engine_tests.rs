use simply_files::index::Index;
use simply_files::records::FileAccess;
use simply_files::simply_packet::{Chunk, Packet};
use simply_files::upload::{
    complete_upload, path_is_valid, start_session, total_chunks_for, ChunkStep, UploadError,
};

const GIB: u64 = 1024 * 1024 * 1024;

/// Apply one chunk write the way the process would: seek and write.
fn apply_write(buffer: &mut Vec<u8>, offset: u64, data: &[u8]) {
    let end = offset as usize + data.len();
    if buffer.len() < end {
        buffer.resize(end, 0);
    }
    buffer[offset as usize..end].copy_from_slice(data);
}

#[test]
fn private_upload_of_hello_world() {
    // One chunk of eleven bytes under a ten GiB limit.
    let mut index = Index::new();
    let s = start_session(
        &mut index,
        "AAAAAAAAAA",
        "docs/a.txt",
        11,
        16777216,
        10 * GIB,
        1000,
    )
    .unwrap();
    let mut engine = s.engine;
    assert!(!s.wipe_existing);
    assert_eq!(engine.chunk_index, 0);
    assert_eq!(engine.total_chunks, 1);

    let mut buffer: Vec<u8> = Vec::new();
    let chunk = Packet::Binary(Chunk { idx: 0, size: 11, data: b"hello world".to_vec() });
    match engine.on_packet(&chunk) {
        ChunkStep::Write(offset) => {
            assert_eq!(offset, 0);
            apply_write(&mut buffer, offset, b"hello world");
            engine.chunk_written();
        }
        _ => panic!("first chunk was not accepted"),
    }
    assert_eq!(engine.progress(), 1);
    index.update_chunk_index(&engine.file_id, engine.progress() as i64, 1001);
    let record = complete_upload(&mut index, &engine, None, 1002).unwrap();
    assert_eq!(record.size, 11);
    assert_eq!(record.chunk_index, 1);
    assert_eq!(record.total_chunks, 1);
    assert_eq!(record.get_access(), FileAccess::Private);
    assert_eq!(record.download_count, 0);
    assert_eq!(buffer, b"hello world".to_vec());
}

#[test]
fn resume_after_interruption_matches_uninterrupted_upload() {
    // Eleven bytes in chunks of six: chunk 0 lands, the connection drops,
    // a second session finishes chunk 1.
    let source = b"hello world";
    let mut index = Index::new();
    let s1 = start_session(&mut index, "AAAAAAAAAA", "a.bin", 11, 6, 10 * GIB, 1).unwrap();
    let mut engine = s1.engine;
    assert_eq!(engine.chunk_index, 0);
    let mut buffer: Vec<u8> = Vec::new();
    let chunk0 = Packet::Binary(Chunk { idx: 0, size: 6, data: source[0..6].to_vec() });
    match engine.on_packet(&chunk0) {
        ChunkStep::Write(offset) => {
            apply_write(&mut buffer, offset, &source[0..6]);
            engine.chunk_written();
        }
        _ => panic!("chunk 0 refused"),
    }
    // Connection drops here; the enclosing scope still persists progress.
    index.update_chunk_index(&engine.file_id, engine.progress() as i64, 2);

    // Reconnect with the same announcement: the server resumes at 1.
    let s2 = start_session(&mut index, "BBBBBBBBBB", "a.bin", 11, 6, 10 * GIB, 3).unwrap();
    let mut engine = s2.engine;
    assert!(!s2.wipe_existing);
    assert_eq!(engine.chunk_index, 1);
    let chunk1 = Packet::Binary(Chunk { idx: 1, size: 5, data: source[6..11].to_vec() });
    match engine.on_packet(&chunk1) {
        ChunkStep::Write(offset) => {
            assert_eq!(offset, 6);
            apply_write(&mut buffer, offset, &source[6..11]);
            engine.chunk_written();
        }
        _ => panic!("chunk 1 refused"),
    }
    index.update_chunk_index(&engine.file_id, engine.progress() as i64, 4);
    let record = complete_upload(&mut index, &engine, None, 5).unwrap();

    // One uninterrupted upload of the same source.
    let mut whole: Vec<u8> = Vec::new();
    apply_write(&mut whole, 0, &source[0..6]);
    apply_write(&mut whole, 6, &source[6..11]);
    assert_eq!(buffer, whole);
    assert_eq!(record.download_count, 0);
    assert_eq!(record.size, 11);
}

#[test]
fn out_of_order_chunk_triggers_resync_and_recovery() {
    // idx 0, then idx 0 again: the duplicate is answered with the server's
    // ordinal (1) and nothing advances; idx 1 is then accepted.
    let mut index = Index::new();
    let s = start_session(&mut index, "AAAAAAAAAA", "a.bin", 12, 6, 10 * GIB, 1).unwrap();
    let mut engine = s.engine;
    let chunk0 = Packet::Binary(Chunk { idx: 0, size: 6, data: vec![1; 6] });
    match engine.on_packet(&chunk0) {
        ChunkStep::Write(_) => engine.chunk_written(),
        _ => panic!("chunk 0 refused"),
    }
    match engine.on_packet(&chunk0) {
        ChunkStep::Resync(i) => assert_eq!(i, 1),
        _ => panic!("duplicate chunk was not answered with a resync"),
    }
    assert_eq!(engine.chunk_index, 1);
    let chunk1 = Packet::Binary(Chunk { idx: 1, size: 6, data: vec![2; 6] });
    match engine.on_packet(&chunk1) {
        ChunkStep::Write(offset) => assert_eq!(offset, 6),
        _ => panic!("correctly ordered chunk refused"),
    }
}

#[test]
fn non_chunk_packet_in_loop_is_rejected() {
    let mut index = Index::new();
    let s = start_session(&mut index, "AAAAAAAAAA", "a.bin", 4, 4, 10 * GIB, 1).unwrap();
    let engine = s.engine;
    match engine.on_packet(&Packet::Next) {
        ChunkStep::Reject(e) => assert_eq!(e, UploadError::UnexpectedPacketType),
        _ => panic!("a next-ack from the client was not rejected"),
    }
}

#[test]
fn mismatched_total_chunks_discards_and_restarts() {
    let mut index = Index::new();
    let s1 = start_session(&mut index, "AAAAAAAAAA", "a.bin", 12, 6, 10 * GIB, 1).unwrap();
    let mut engine = s1.engine;
    let chunk0 = Packet::Binary(Chunk { idx: 0, size: 6, data: vec![1; 6] });
    match engine.on_packet(&chunk0) {
        ChunkStep::Write(_) => engine.chunk_written(),
        _ => panic!("chunk 0 refused"),
    }
    index.update_chunk_index(&engine.file_id, engine.progress() as i64, 2);

    // A different upload for the same path: three chunks instead of two.
    let s2 = start_session(&mut index, "BBBBBBBBBB", "a.bin", 18, 6, 10 * GIB, 3).unwrap();
    assert!(s2.wipe_existing);
    assert_eq!(s2.engine.chunk_index, 0);
    assert_eq!(s2.engine.total_chunks, 3);
    // The restarted row keeps the id the path had.
    assert_eq!(s2.engine.file_id, "AAAAAAAAAA");
}

#[test]
fn invalid_paths_are_rejected() {
    for bad in ["/etc/passwd", "../up", "..", "", "./x", "."] {
        assert!(!path_is_valid(bad), "{:?} should be invalid", bad);
        let mut index = Index::new();
        let r = start_session(&mut index, "AAAAAAAAAA", bad, 4, 4, 10 * GIB, 1);
        assert!(matches!(r, Err(UploadError::InvalidPath)), "{:?}", bad);
    }
    for good in ["a.txt", "docs/a.txt", "a/../b", "x..y"] {
        assert!(path_is_valid(good), "{:?} should be valid", good);
    }
}

#[test]
fn storage_limit_is_checked_before_any_byte() {
    let mut index = Index::new();
    let first = index.new_file("AAAAAAAAAA", "big.bin", 1, 0).unwrap();
    index.successful_upload(&first.id, 200, 0);
    let r = start_session(&mut index, "BBBBBBBBBB", "next.bin", 4, 4, 100, 1);
    assert!(matches!(r, Err(UploadError::InsufficientStorage)));
}

#[test]
fn zero_chunk_size_is_rejected() {
    let mut index = Index::new();
    let r = start_session(&mut index, "AAAAAAAAAA", "a.bin", 4, 0, 10 * GIB, 1);
    assert!(matches!(r, Err(UploadError::InvalidArgument)));
}

#[test]
fn chunk_counts_round_up() {
    assert_eq!(total_chunks_for(0, 7), 0);
    assert_eq!(total_chunks_for(7, 7), 1);
    assert_eq!(total_chunks_for(8, 7), 2);
    assert_eq!(total_chunks_for(11, 16777216), 1);
}

#[test]
fn colliding_fresh_id_is_a_conflict() {
    let mut index = Index::new();
    index.new_file("AAAAAAAAAA", "other.bin", 1, 0).unwrap();
    let r = start_session(&mut index, "AAAAAAAAAA", "new.bin", 4, 4, 10 * GIB, 1);
    assert!(matches!(r, Err(UploadError::Conflict)));
}

#[test]
fn completing_a_vanished_record_is_not_found() {
    let mut index = Index::new();
    let s = start_session(&mut index, "AAAAAAAAAA", "a.bin", 4, 4, 10 * GIB, 1).unwrap();
    let mut engine = s.engine;
    match engine.on_packet(&Packet::Binary(Chunk { idx: 0, size: 4, data: vec![9; 4] })) {
        ChunkStep::Write(_) => engine.chunk_written(),
        _ => panic!("chunk refused"),
    }
    index.delete("AAAAAAAAAA");
    let r = complete_upload(&mut index, &engine, None, 2);
    assert!(matches!(r, Err(UploadError::NotFound)));
}

#[test]
fn completion_record_carries_the_final_ordinal() {
    // The completion message's record must show every chunk written, with
    // no separate persistence step in between.
    let mut index = Index::new();
    let s = start_session(&mut index, "AAAAAAAAAA", "a.txt", 11, 16777216, 10 * GIB, 1).unwrap();
    let mut engine = s.engine;
    match engine.on_packet(&Packet::Binary(Chunk { idx: 0, size: 11, data: b"hello world".to_vec() })) {
        ChunkStep::Write(_) => engine.chunk_written(),
        _ => panic!("chunk refused"),
    }
    let record = complete_upload(&mut index, &engine, None, 2).unwrap();
    assert_eq!(record.chunk_index, 1);
    assert_eq!(record.total_chunks, 1);
    assert_eq!(record.size, 11);
    // the row in the index agrees
    assert_eq!(index.get_via_id("AAAAAAAAAA").unwrap().chunk_index, 1);
}
