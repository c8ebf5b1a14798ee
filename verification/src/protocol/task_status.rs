//! Payloads of task status queries:
//!
//! - `GetTaskStatus`: `[task_id_length:u16_be][task_id:utf8]`
//! - `TaskStatus`: `[status:u8][output_length:u32_be][output:utf8]
//!   [error_length:u32_be][error:utf8]`, status `0=Pending`, `1=Running`,
//!   `2=Completed`, `3=Failed`.

use super::ProtocolError;
use crate::codec::{self, push_bytes, push_string, push_u32, ByteReader};
use crate::task::TaskStatus;
use vstd::prelude::*;
use vstd::utf8::*;

verus! {

/// The byte of a task status.
pub open spec fn status_byte(s: TaskStatus) -> u8 {
    match s {
        TaskStatus::Pending => 0,
        TaskStatus::Running => 1,
        TaskStatus::Completed => 2,
        TaskStatus::Failed => 3,
    }
}

/// The task status of a byte, if it names one.
pub open spec fn status_of_byte(b: u8) -> Option<TaskStatus> {
    if b == 0 {
        Some(TaskStatus::Pending)
    } else if b == 1 {
        Some(TaskStatus::Running)
    } else if b == 2 {
        Some(TaskStatus::Completed)
    } else if b == 3 {
        Some(TaskStatus::Failed)
    } else {
        None
    }
}

/// A string behind a `u32` length: `[length:u32_be][utf8]`.
pub open spec fn long_string_field(s: Seq<char>) -> Seq<u8> {
    codec::u32_be(encode_utf8(s).len() as u32) + encode_utf8(s)
}

/// Takes a `u32`-length-prefixed UTF-8 string from the front of `b`.
pub open spec fn take_long_string(b: Seq<u8>) -> Option<(Seq<char>, Seq<u8>)> {
    match codec::take_u32(b) {
        Some((n, r)) => match codec::take_bytes(r, n as nat) {
            Some((raw, rest)) => if valid_utf8(raw) { Some((decode_utf8(raw), rest)) } else { None },
            None => None,
        },
        None => None,
    }
}

/// A task's status as reported to clients.
#[derive(Debug, Clone, PartialEq, Eq)]
pub struct TaskStatusReport {
    pub status: TaskStatus,
    pub output: String,
    pub error: String,
}

pub ghost struct ReportView {
    pub status: TaskStatus,
    pub output: Seq<char>,
    pub error: Seq<char>,
}

impl View for TaskStatusReport {
    type V = ReportView;

    open spec fn view(&self) -> ReportView {
        ReportView { status: self.status, output: self.output@, error: self.error@ }
    }
}

/// The payload bytes of a report.
pub open spec fn report_bytes(r: ReportView) -> Seq<u8> {
    seq![status_byte(r.status)] + long_string_field(r.output) + long_string_field(r.error)
}

/// Whether a report's strings fit their `u32` lengths.
pub open spec fn report_fits(r: ReportView) -> bool {
    encode_utf8(r.output).len() <= u32::MAX && encode_utf8(r.error).len() <= u32::MAX
}

/// What decoding a report payload yields, when it is exactly one report.
pub open spec fn parse_report(b: Seq<u8>) -> Option<ReportView> {
    match codec::take_u8(b) {
        Some((s, r1)) => match status_of_byte(s) {
            Some(status) => match take_long_string(r1) {
                Some((output, r2)) => match take_long_string(r2) {
                    Some((error, r3)) => if r3.len() == 0 { Some(ReportView { status, output, error }) } else { None },
                    None => None,
                },
                None => None,
            },
            None => None,
        },
        None => None,
    }
}

/// What decoding a query payload yields: the task id, when the payload is
/// exactly one string field.
pub open spec fn parse_query(b: Seq<u8>) -> Option<Seq<char>> {
    match codec::take_string(b) {
        Some((id, rest)) => if rest.len() == 0 { Some(id) } else { None },
        None => None,
    }
}

fn push_long_string(out: &mut Vec<u8>, s: &str) -> (ok: bool)
    ensures
        ok == (encode_utf8(s@).len() <= u32::MAX),
        ok ==> final(out)@ == old(out)@ + long_string_field(s@),
{
    let bytes = s.as_bytes();
    if bytes.len() > 4294967295 {
        return false;
    }
    push_u32(out, bytes.len() as u32);
    push_bytes(out, bytes);
    assert(final(out)@ =~= old(out)@ + long_string_field(s@));
    true
}

fn read_long_string(reader: &mut ByteReader) -> (r: Option<String>)
    requires
        old(reader).wf(),
    ensures
        final(reader).wf(),
        match take_long_string(old(reader).rest()) {
            Some((s, rest)) => r matches Some(x) && x@ == s && final(reader).rest() == rest,
            None => r is None,
        },
{
    let n = match reader.read_u32() {
        Some(n) => n,
        None => return None,
    };
    let raw = match reader.read_exact(n as usize) {
        Some(raw) => raw,
        None => return None,
    };
    match codec::utf8_str(raw) {
        Some(s) => Some(s.to_owned()),
        None => None,
    }
}

/// The `GetTaskStatus` payload asking about `task_id`;
/// `PayloadTooLarge` when the id is longer than a `u16` length allows.
pub fn encode_task_status_query(task_id: &str) -> (r: Result<Vec<u8>, ProtocolError>)
    ensures
        codec::string_fits(task_id@) ==> (r matches Ok(b) && b@ == codec::string_field(task_id@)),
        !codec::string_fits(task_id@) ==> r == Err::<Vec<u8>, ProtocolError>(ProtocolError::PayloadTooLarge),
{
    let mut out: Vec<u8> = Vec::new();
    if !push_string(&mut out, task_id) {
        return Err(ProtocolError::PayloadTooLarge);
    }
    assert(out@ =~= codec::string_field(task_id@));
    Ok(out)
}

/// The task id a `GetTaskStatus` payload asks about.
pub fn decode_task_status_query(payload: &[u8]) -> (r: Option<String>)
    ensures
        match parse_query(payload@) {
            Some(id) => r matches Some(x) && x@ == id,
            None => r is None,
        },
{
    let mut reader = ByteReader::new(payload);
    let id = match reader.read_string() {
        Some(s) => s,
        None => return None,
    };
    if !reader.is_finished() {
        return None;
    }
    Some(id)
}

impl TaskStatusReport {
    /// The `TaskStatus` payload; `PayloadTooLarge` when the output or the
    /// error is longer than a `u32` length allows.
    pub fn encode(&self) -> (r: Result<Vec<u8>, ProtocolError>)
        ensures
            report_fits(self@) ==> (r matches Ok(b) && b@ == report_bytes(self@)),
            !report_fits(self@) ==> r == Err::<Vec<u8>, ProtocolError>(ProtocolError::PayloadTooLarge),
    {
        let mut out: Vec<u8> = Vec::new();
        let s: u8 = match self.status {
            TaskStatus::Pending => 0,
            TaskStatus::Running => 1,
            TaskStatus::Completed => 2,
            TaskStatus::Failed => 3,
        };
        out.push(s);
        if !push_long_string(&mut out, self.output.as_str()) {
            return Err(ProtocolError::PayloadTooLarge);
        }
        if !push_long_string(&mut out, self.error.as_str()) {
            return Err(ProtocolError::PayloadTooLarge);
        }
        assert(out@ =~= report_bytes(self@));
        Ok(out)
    }

    /// Decodes a whole `TaskStatus` payload; `None` unless it is exactly
    /// one report with a known status.
    pub fn decode(payload: &[u8]) -> (r: Option<TaskStatusReport>)
        ensures
            match parse_report(payload@) {
                Some(v) => r matches Some(x) && x@ == v,
                None => r is None,
            },
    {
        let mut reader = ByteReader::new(payload);
        let s = match reader.read_u8() {
            Some(s) => s,
            None => return None,
        };
        let status = if s == 0 {
            TaskStatus::Pending
        } else if s == 1 {
            TaskStatus::Running
        } else if s == 2 {
            TaskStatus::Completed
        } else if s == 3 {
            TaskStatus::Failed
        } else {
            return None;
        };
        let output = match read_long_string(&mut reader) {
            Some(x) => x,
            None => return None,
        };
        let error = match read_long_string(&mut reader) {
            Some(x) => x,
            None => return None,
        };
        if !reader.is_finished() {
            return None;
        }
        Some(TaskStatusReport { status, output, error })
    }
}

proof fn lemma_take_long_string(s: Seq<char>, rest: Seq<u8>)
    requires
        encode_utf8(s).len() <= u32::MAX,
    ensures
        take_long_string(long_string_field(s) + rest) == Some((s, rest)),
{
    let raw = encode_utf8(s);
    let b = long_string_field(s) + rest;
    assert(b =~= codec::u32_be(raw.len() as u32) + (raw + rest));
    codec::lemma_take_u32(raw.len() as u32, raw + rest);
    codec::lemma_take_bytes(raw, rest);
    encode_utf8_valid_utf8(s);
    encode_utf8_decode_utf8(s);
}

/// Decoding the payload of a report that fits gives it back.
pub proof fn lemma_report_round_trip(r: ReportView)
    requires
        report_fits(r),
    ensures
        parse_report(report_bytes(r)) == Some(r),
{
    let empty = Seq::<u8>::empty();
    let r2 = long_string_field(r.error) + empty;
    let r1 = long_string_field(r.output) + r2;
    assert(report_bytes(r) =~= seq![status_byte(r.status)] + r1);
    codec::lemma_take_u8(status_byte(r.status), r1);
    lemma_take_long_string(r.output, r2);
    lemma_take_long_string(r.error, empty);
}

/// Decoding a query for a task id that fits gives the id back.
pub proof fn lemma_query_round_trip(id: Seq<char>)
    requires
        codec::string_fits(id),
    ensures
        parse_query(codec::string_field(id)) == Some(id),
{
    let empty = Seq::<u8>::empty();
    codec::lemma_take_string(id, empty);
    assert(codec::string_field(id) + empty =~= codec::string_field(id));
}

} // verus!
