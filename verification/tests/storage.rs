use core_engine::raft::RaftLogEntry;
use core_engine::storage::raft_log::{decode_record, encode_record, RaftLogError};
use core_engine::storage::{encode_wal_record, LogPosition, WalIndex};

fn entry(term: u64, index: u64, task_id: &str, payload: &[u8]) -> RaftLogEntry {
    RaftLogEntry { term, index, task_id: task_id.to_string(), payload: payload.to_vec() }
}

#[test]
fn raft_log_record_has_documented_layout() {
    let bytes = encode_record(&entry(1, 2, "t", b"ab")).expect("record encodes");

    assert_eq!(
        bytes,
        vec![0, 0, 0, 0, 0, 0, 0, 1, 0, 0, 0, 0, 0, 0, 0, 2, 0, 1, b't', 0, 0, 0, 2, b'a', b'b']
    );
}

#[test]
fn raft_log_record_round_trips() {
    let original = entry(7, 42, "task-42", b"payload bytes");

    let bytes = encode_record(&original).expect("record encodes");

    assert_eq!(decode_record(&bytes), Ok(original));
}

#[test]
fn raft_log_record_with_empty_fields_round_trips() {
    let original = entry(0, 0, "", b"");

    let bytes = encode_record(&original).expect("record encodes");

    assert_eq!(bytes.len(), 22);
    assert_eq!(decode_record(&bytes), Ok(original));
}

#[test]
fn raft_log_record_too_short_is_rejected() {
    assert_eq!(decode_record(&[0; 17]), Err(RaftLogError::RecordTooShort));
}

#[test]
fn raft_log_record_truncated_task_id_is_rejected() {
    let mut bytes = vec![0; 16];
    bytes.extend_from_slice(&[0, 10]);
    bytes.extend_from_slice(b"abc");

    assert_eq!(decode_record(&bytes), Err(RaftLogError::TruncatedTaskId));
}

#[test]
fn raft_log_record_invalid_task_id_is_rejected() {
    let mut bytes = vec![0; 16];
    bytes.extend_from_slice(&[0, 1, 0xff, 0, 0, 0, 0]);

    assert_eq!(decode_record(&bytes), Err(RaftLogError::InvalidTaskId));
}

#[test]
fn raft_log_record_trailing_bytes_are_rejected() {
    let mut bytes = encode_record(&entry(1, 1, "a", b"x")).expect("record encodes");
    bytes.push(0);

    assert_eq!(decode_record(&bytes), Err(RaftLogError::LengthMismatch));
}

#[test]
fn raft_log_record_truncated_payload_is_rejected() {
    let mut bytes = encode_record(&entry(1, 1, "a", b"xyz")).expect("record encodes");
    bytes.pop();

    assert_eq!(decode_record(&bytes), Err(RaftLogError::LengthMismatch));
}

#[test]
fn raft_log_record_with_long_task_id_is_refused() {
    let long_id = "x".repeat(70_000);

    assert_eq!(encode_record(&entry(1, 1, &long_id, b"")), Err(RaftLogError::TaskIdTooLong));
}

#[test]
fn raft_log_errors_describe_themselves() {
    assert_eq!(RaftLogError::RecordTooShort.message(), "record too short");
    assert_eq!(RaftLogError::TruncatedTaskId.message(), "truncated task id or payload length");
    assert_eq!(RaftLogError::InvalidTaskId.message(), "invalid task id utf-8");
    assert_eq!(RaftLogError::LengthMismatch.message(), "trailing bytes or truncated payload");
    assert_eq!(RaftLogError::TaskIdTooLong.message(), "task id too long");
    assert_eq!(RaftLogError::PayloadTooLong.message(), "payload too long");
}

#[test]
fn wal_record_is_length_prefixed() {
    assert_eq!(encode_wal_record(b"task"), Ok(vec![0, 0, 0, 4, b't', b'a', b's', b'k']));
    assert_eq!(encode_wal_record(b""), Ok(vec![0, 0, 0, 0]));
}

#[test]
fn wal_index_rebuild_finds_complete_records() {
    let mut contents = encode_wal_record(b"task").unwrap();
    contents.extend(encode_wal_record(b"xy").unwrap());
    contents.extend_from_slice(&[0, 0, 0, 9, 1, 2]);

    let index = WalIndex::rebuild(&contents);

    assert_eq!(index.len(), 2);
    assert_eq!(index.get(0), Some(LogPosition { offset: 0, length: 4 }));
    assert_eq!(index.get(1), Some(LogPosition { offset: 8, length: 2 }));
    assert_eq!(index.get(2), None);
}

#[test]
fn wal_index_records_positions_in_order() {
    let mut index = WalIndex::new();
    assert!(index.is_empty());

    let first = index.record(0, 4);
    let second = index.record(8, 2);

    assert_eq!(first, LogPosition { offset: 0, length: 4 });
    assert_eq!(second, LogPosition { offset: 8, length: 2 });
    assert_eq!(index.len(), 2);
    assert!(!index.is_empty());
    assert_eq!(index.get(1), Some(second));
}
