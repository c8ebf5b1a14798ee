//! Write-ahead log bookkeeping. A WAL file is a run of records
//! `[length:u32_be][payload]`; the in-memory index maps logical record
//! numbers to file offsets and payload lengths.

use crate::codec::{self, push_bytes, push_u32};
use vstd::prelude::*;

pub mod raft_log;

verus! {

/// Where one record sits in the WAL file: the offset of its length prefix
/// and the length of its payload.
#[derive(Debug, Clone, Copy, PartialEq, Eq, Structural)]
pub struct LogPosition {
    pub offset: u64,
    pub length: u32,
}

/// Why a WAL record cannot be written.
#[derive(Debug, Clone, Copy, PartialEq, Eq, Structural)]
pub enum WalError {
    /// The payload is longer than a `u32` length prefix allows.
    RecordTooLarge,
}

/// Bytes of the record that holds `payload`.
pub open spec fn record_bytes(payload: Seq<u8>) -> Seq<u8> {
    codec::u32_be(payload.len() as u32) + payload
}

/// The records found at the front of `b`, read from offset `start`: each
/// record whose length prefix and payload are complete, stopping at the
/// first that is not.
pub open spec fn scan_records(b: Seq<u8>, start: nat) -> Seq<LogPosition>
    decreases b.len() - start,
{
    if start + 4 > b.len() {
        Seq::empty()
    } else {
        let len = codec::u32_from_be(b.subrange(start as int, start + 4 as int));
        if start + 4 + len > b.len() {
            Seq::empty()
        } else {
            seq![LogPosition { offset: start as u64, length: len }] + scan_records(
                b,
                (start + 4 + len) as nat,
            )
        }
    }
}

/// The bytes of records holding `ps`, one after another.
pub open spec fn records_bytes(ps: Seq<Seq<u8>>) -> Seq<u8>
    decreases ps.len(),
{
    if ps.len() == 0 {
        Seq::empty()
    } else {
        record_bytes(ps[0]) + records_bytes(ps.drop_first())
    }
}

/// Where the records holding `ps` sit when written one after another from
/// offset `start`.
pub open spec fn positions_of(ps: Seq<Seq<u8>>, start: nat) -> Seq<LogPosition>
    decreases ps.len(),
{
    if ps.len() == 0 {
        Seq::empty()
    } else {
        seq![LogPosition { offset: start as u64, length: ps[0].len() as u32 }] + positions_of(
            ps.drop_first(),
            start + 4 + ps[0].len(),
        )
    }
}

proof fn lemma_positions_len(ps: Seq<Seq<u8>>, start: nat)
    ensures
        positions_of(ps, start).len() == ps.len(),
    decreases ps.len(),
{
    if ps.len() > 0 {
        lemma_positions_len(ps.drop_first(), start + 4 + ps[0].len());
    }
}

/// Reading back a WAL file gives back what was written: indexing the bytes
/// of records appended after `pre` finds exactly their positions, and each
/// position's bytes are the payload written there.
pub proof fn lemma_scan_replays_appends(pre: Seq<u8>, ps: Seq<Seq<u8>>)
    requires
        forall|i: int| 0 <= i < ps.len() ==> #[trigger] ps[i].len() <= u32::MAX,
        pre.len() + records_bytes(ps).len() <= u64::MAX,
    ensures
        scan_records(pre + records_bytes(ps), pre.len()) == positions_of(ps, pre.len()),
        forall|i: int|
            0 <= i < ps.len() ==> (pre + records_bytes(ps)).subrange(
                #[trigger] positions_of(ps, pre.len())[i].offset + 4,
                positions_of(ps, pre.len())[i].offset + 4 + positions_of(ps, pre.len())[i].length,
            ) == ps[i],
    decreases ps.len(),
{
    let b = pre + records_bytes(ps);
    if ps.len() == 0 {
        assert(b =~= pre);
    } else {
        let p0 = ps[0];
        let rest = ps.drop_first();
        let pre2 = pre + record_bytes(p0);
        assert(b =~= pre2 + records_bytes(rest));
        assert forall|i: int| 0 <= i < rest.len() implies #[trigger] rest[i].len() <= u32::MAX by {
            assert(rest[i] == ps[i + 1]);
        }
        codec::lemma_u32_be_round_trip(p0.len() as u32);
        assert(b.subrange(pre.len() as int, pre.len() + 4int) =~= codec::u32_be(p0.len() as u32));
        lemma_scan_replays_appends(pre2, rest);
        assert(pre2.len() == pre.len() + 4 + p0.len());
        let pos = positions_of(ps, pre.len());
        lemma_positions_len(rest, pre2.len());
        assert(pre2.len() == (pre.len() + 4 + p0.len()) as nat);
        assert(pos == seq![LogPosition { offset: pre.len() as u64, length: p0.len() as u32 }] + positions_of(
            rest,
            pre2.len(),
        ));
        assert forall|i: int| 0 <= i < ps.len() implies b.subrange(
            #[trigger] pos[i].offset + 4,
            pos[i].offset + 4 + pos[i].length,
        ) == ps[i] by {
            if i == 0 {
                assert(b.subrange(pre.len() + 4int, pre.len() + 4int + p0.len()) =~= p0);
            } else {
                assert(pos[i] == positions_of(rest, pre2.len())[i - 1]);
                assert(ps[i] == rest[i - 1]);
            }
        }
    }
}

/// The bytes of the record that holds `payload`; `RecordTooLarge` exactly
/// when its length does not fit a `u32`.
pub fn encode_wal_record(payload: &[u8]) -> (r: Result<Vec<u8>, WalError>)
    ensures
        payload@.len() <= u32::MAX ==> (r matches Ok(b) && b@ == record_bytes(payload@)),
        payload@.len() > u32::MAX ==> r == Err::<Vec<u8>, WalError>(WalError::RecordTooLarge),
{
    if payload.len() > 4294967295 {
        return Err(WalError::RecordTooLarge);
    }
    let mut out: Vec<u8> = Vec::new();
    push_u32(&mut out, payload.len() as u32);
    push_bytes(&mut out, payload);
    assert(out@ =~= record_bytes(payload@));
    Ok(out)
}

/// The index of a WAL: the position of every record, in log order.
pub struct WalIndex {
    positions: Vec<LogPosition>,
}

impl View for WalIndex {
    type V = Seq<LogPosition>;

    closed spec fn view(&self) -> Seq<LogPosition> {
        self.positions@
    }
}

impl WalIndex {
    /// An index with no records.
    pub fn new() -> (r: WalIndex)
        ensures
            r@ == Seq::<LogPosition>::empty(),
    {
        WalIndex { positions: Vec::new() }
    }

    /// The index of the complete records at the front of a WAL file's
    /// contents; a truncated record at the tail, and what follows it, is
    /// left out.
    pub fn rebuild(contents: &[u8]) -> (r: WalIndex)
        ensures
            r@ == scan_records(contents@, 0),
    {
        let mut positions: Vec<LogPosition> = Vec::new();
        let mut start: usize = 0;
        let ghost b = contents@;
        while contents.len() - start >= 4
            invariant
                b == contents@,
                start <= b.len(),
                positions@ + scan_records(b, start as nat) == scan_records(b, 0),
            decreases b.len() - start,
        {
            let prefix = vstd::slice::slice_subrange(contents, start, start + 4);
            let len: u32 = (((prefix[0] as u32) << 24u32) | ((prefix[1] as u32) << 16u32) | (
            (prefix[2] as u32) << 8u32) | (prefix[3] as u32)) as u32;
            assert(prefix@ =~= b.subrange(start as int, start + 4));
            if contents.len() - start - 4 < len as usize {
                assert(scan_records(b, start as nat) =~= Seq::<LogPosition>::empty());
                assert(positions@ + Seq::<LogPosition>::empty() =~= positions@);
                return WalIndex { positions };
            }
            let ghost here = LogPosition { offset: start as u64, length: len };
            positions.push(LogPosition { offset: start as u64, length: len });
            start = start + 4 + len as usize;
            proof {
                assert(positions@ + scan_records(b, start as nat) =~= positions@.drop_last() + (seq![here]
                    + scan_records(b, start as nat)));
            }
        }
        assert(scan_records(b, start as nat) =~= Seq::<LogPosition>::empty());
        assert(positions@ + Seq::<LogPosition>::empty() =~= positions@);
        WalIndex { positions }
    }

    /// Records a new record written at `offset` with a payload of
    /// `length` bytes, and returns its position.
    pub fn record(&mut self, offset: u64, length: u32) -> (p: LogPosition)
        ensures
            p == (LogPosition { offset, length }),
            final(self)@ == old(self)@.push(p),
    {
        let p = LogPosition { offset, length };
        self.positions.push(p);
        p
    }

    /// The position of record `i`, if there is one.
    pub fn get(&self, i: usize) -> (r: Option<LogPosition>)
        ensures
            i < self@.len() ==> r == Some(self@[i as int]),
            i >= self@.len() ==> r is None,
    {
        if i < self.positions.len() {
            Some(self.positions[i])
        } else {
            None
        }
    }

    /// The number of records.
    pub fn len(&self) -> (n: usize)
        ensures
            n == self@.len(),
    {
        self.positions.len()
    }

    /// Whether there is no record.
    pub fn is_empty(&self) -> (r: bool)
        ensures
            r == (self@.len() == 0),
    {
        self.positions.len() == 0
    }
}

} // verus!
