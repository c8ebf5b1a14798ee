//! Records of the durable Raft log. Each WAL record holds one log entry:
//!
//! `[term:u64_be][index:u64_be][task_id_len:u16_be][task_id][payload_len:u32_be][payload]`

use crate::codec::{self, ByteReader};
use crate::raft::wire::{encode_log_entry, entry_bytes, entry_fits, parse_entry};
use crate::raft::{EntryView, RaftLogEntry};
use vstd::prelude::*;
use vstd::slice::slice_to_vec;
use vstd::utf8::*;

verus! {

/// Why a Raft log record cannot be written or read back.
#[derive(Debug, Clone, Copy, PartialEq, Eq, Structural)]
pub enum RaftLogError {
    /// The task id is longer than a `u16` length allows.
    TaskIdTooLong,
    /// The payload is longer than a `u32` length allows.
    PayloadTooLong,
    /// Fewer bytes than the fixed header.
    RecordTooShort,
    /// The task id or the payload length runs past the record.
    TruncatedTaskId,
    /// The task id is not UTF-8.
    InvalidTaskId,
    /// The payload length disagrees with the bytes that follow it.
    LengthMismatch,
}

impl RaftLogError {
    /// A short description of the error.
    pub fn message(&self) -> (m: &'static str)
        ensures
            m@ == error_text(*self),
    {
        match self {
            RaftLogError::TaskIdTooLong => "task id too long",
            RaftLogError::PayloadTooLong => "payload too long",
            RaftLogError::RecordTooShort => "record too short",
            RaftLogError::TruncatedTaskId => "truncated task id or payload length",
            RaftLogError::InvalidTaskId => "invalid task id utf-8",
            RaftLogError::LengthMismatch => "trailing bytes or truncated payload",
        }
    }
}

/// The description of each error.
pub open spec fn error_text(e: RaftLogError) -> Seq<char> {
    match e {
        RaftLogError::TaskIdTooLong => "task id too long"@,
        RaftLogError::PayloadTooLong => "payload too long"@,
        RaftLogError::RecordTooShort => "record too short"@,
        RaftLogError::TruncatedTaskId => "truncated task id or payload length"@,
        RaftLogError::InvalidTaskId => "invalid task id utf-8"@,
        RaftLogError::LengthMismatch => "trailing bytes or truncated payload"@,
    }
}

/// Length of the fixed header: term, index and task id length.
pub const RECORD_HEADER_LEN: usize = 18;

/// What reading a record gives: the entry, or the first check it fails.
pub open spec fn parse_record(b: Seq<u8>) -> Result<EntryView, RaftLogError> {
    if b.len() < 18 {
        Err(RaftLogError::RecordTooShort)
    } else {
        let n = codec::u16_from_be(b.subrange(16, 18)) as int;
        if b.len() < 22 + n {
            Err(RaftLogError::TruncatedTaskId)
        } else if !valid_utf8(b.subrange(18, 18 + n)) {
            Err(RaftLogError::InvalidTaskId)
        } else {
            let p = codec::u32_from_be(b.subrange(18 + n, 22 + n)) as int;
            if b.len() != 22 + n + p {
                Err(RaftLogError::LengthMismatch)
            } else {
                Ok(
                    EntryView {
                        term: codec::u64_from_be(b.subrange(0, 8)),
                        index: codec::u64_from_be(b.subrange(8, 16)),
                        task_id: decode_utf8(b.subrange(18, 18 + n)),
                        payload: b.subrange(22 + n, b.len() as int),
                    },
                )
            }
        }
    }
}

/// A record reads back as an entry exactly when the entry's wire encoding
/// is the whole record.
proof fn lemma_parse_record_entry(b: Seq<u8>)
    ensures
        parse_record(b) is Ok <==> (parse_entry(b) matches Some((_, rest)) && rest.len() == 0),
        parse_record(b) is Ok ==> parse_entry(b) == Some((parse_record(b)->Ok_0, Seq::<u8>::empty())),
{
    reveal(parse_entry);
    if b.len() >= 18 {
        let r1 = b.skip(8);
        let r2 = r1.skip(8);
        assert(b.take(8) =~= b.subrange(0, 8));
        assert(r1.take(8) =~= b.subrange(8, 16));
        assert(r2.take(2) =~= b.subrange(16, 18));
        let n = codec::u16_from_be(b.subrange(16, 18)) as int;
        let r2s = r2.skip(2);
        assert(r2s =~= b.skip(18));
        if b.len() >= 18 + n {
            assert(r2s.take(n) =~= b.subrange(18, 18 + n));
            let r3 = r2s.skip(n);
            assert(r3 =~= b.skip(18 + n));
            if b.len() >= 22 + n {
                assert(r3.take(4) =~= b.subrange(18 + n, 22 + n));
                let p = codec::u32_from_be(b.subrange(18 + n, 22 + n)) as int;
                let r4 = r3.skip(4);
                assert(r4 =~= b.skip(22 + n));
                if b.len() >= 22 + n + p {
                    assert(r4.take(p) =~= b.subrange(22 + n, 22 + n + p));
                    assert(r4.skip(p).len() == b.len() - (22 + n + p));
                }
            }
        }
    }
}

/// An entry that fits reads back from its record unchanged.
pub proof fn lemma_record_round_trip(e: EntryView)
    requires
        entry_fits(e),
    ensures
        parse_record(entry_bytes(e)) == Ok::<EntryView, RaftLogError>(e),
{
    crate::raft::wire::lemma_entry_round_trip(e, Seq::empty());
    assert(entry_bytes(e) + Seq::<u8>::empty() =~= entry_bytes(e));
    lemma_parse_record_entry(entry_bytes(e));
}

/// A record that reads back is the encoding of the entry it gives.
pub proof fn lemma_record_canonical(b: Seq<u8>)
    requires
        parse_record(b) is Ok,
    ensures
        entry_fits(parse_record(b)->Ok_0),
        b == entry_bytes(parse_record(b)->Ok_0),
{
    lemma_parse_record_entry(b);
    crate::raft::wire::lemma_entry_canonical(b);
    assert(entry_bytes(parse_record(b)->Ok_0) + Seq::<u8>::empty() =~= entry_bytes(
        parse_record(b)->Ok_0,
    ));
}

/// The record that stores `entry`: `TaskIdTooLong` or `PayloadTooLong`
/// when a length does not fit its prefix, checked in that order.
pub fn encode_record(entry: &RaftLogEntry) -> (r: Result<Vec<u8>, RaftLogError>)
    ensures
        entry_fits(entry@) ==> (r matches Ok(b) && b@ == entry_bytes(entry@)),
        !codec::string_fits(entry@.task_id) ==> r == Err::<Vec<u8>, RaftLogError>(
            RaftLogError::TaskIdTooLong,
        ),
        codec::string_fits(entry@.task_id) && entry@.payload.len() > u32::MAX ==> r == Err::<
            Vec<u8>,
            RaftLogError,
        >(RaftLogError::PayloadTooLong),
{
    if entry.task_id.as_str().as_bytes().len() > 65535 {
        return Err(RaftLogError::TaskIdTooLong);
    }
    if entry.payload.len() > 4294967295 {
        return Err(RaftLogError::PayloadTooLong);
    }
    let mut out: Vec<u8> = Vec::new();
    if encode_log_entry(&mut out, entry) {
        Ok(out)
    } else {
        Err(RaftLogError::PayloadTooLong)
    }
}

/// Reads the entry stored in a record; the error names the first check
/// the record fails.
pub fn decode_record(bytes: &[u8]) -> (r: Result<RaftLogEntry, RaftLogError>)
    ensures
        match parse_record(bytes@) {
            Ok(e) => r matches Ok(x) && x@ == e,
            Err(err) => r == Err::<RaftLogEntry, RaftLogError>(err),
        },
{
    let ghost b = bytes@;
    if bytes.len() < 18 {
        return Err(RaftLogError::RecordTooShort);
    }
    let mut reader = ByteReader::new(bytes);
    assert(b.take(8) =~= b.subrange(0, 8));
    let term = match reader.read_u64() {
        Some(x) => x,
        None => return Err(RaftLogError::RecordTooShort),
    };
    assert(reader.rest() =~= b.skip(8));
    assert(b.skip(8).take(8) =~= b.subrange(8, 16));
    let index = match reader.read_u64() {
        Some(x) => x,
        None => return Err(RaftLogError::RecordTooShort),
    };
    assert(reader.rest() =~= b.skip(16));
    assert(b.skip(16).take(2) =~= b.subrange(16, 18));
    let n = match reader.read_u16() {
        Some(x) => x,
        None => return Err(RaftLogError::RecordTooShort),
    };
    assert(reader.rest() =~= b.skip(18));
    let task_id_end: usize = 18 + n as usize;
    if bytes.len() < task_id_end + 4 {
        return Err(RaftLogError::TruncatedTaskId);
    }
    let raw = match reader.read_exact(n as usize) {
        Some(x) => x,
        None => return Err(RaftLogError::TruncatedTaskId),
    };
    assert(raw@ =~= b.subrange(18, 18 + n));
    assert(reader.rest() =~= b.skip(18 + n));
    let task_id = match codec::utf8_str(raw) {
        Some(s) => s.to_owned(),
        None => return Err(RaftLogError::InvalidTaskId),
    };
    assert(b.skip(18 + n).take(4) =~= b.subrange(18 + n, 22 + n));
    let p = match reader.read_u32() {
        Some(x) => x,
        None => return Err(RaftLogError::TruncatedTaskId),
    };
    assert(reader.rest() =~= b.skip(22 + n));
    if bytes.len() - (task_id_end + 4) != p as usize {
        return Err(RaftLogError::LengthMismatch);
    }
    let payload = match reader.read_exact(p as usize) {
        Some(x) => slice_to_vec(x),
        None => return Err(RaftLogError::LengthMismatch),
    };
    assert(payload@ =~= b.subrange(22 + n, b.len() as int));
    Ok(RaftLogEntry { term, index, task_id, payload })
}

} // verus!
