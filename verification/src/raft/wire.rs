//! Payload codecs of the Raft RPCs. Integers are big-endian and strings are
//! `[length:u16_be][utf8]`:
//!
//! - `RequestVote`: `[term:u64][candidate_id:string][last_log_index:u64][last_log_term:u64]`
//! - `RequestVoteReply`: `[term:u64][vote_granted:u8]`
//! - `AppendEntries`: `[term:u64][leader_id:string][prev_log_index:u64][prev_log_term:u64]
//!   [leader_commit:u64][entry_count:u16][entry repeated count]`
//! - `AppendEntriesReply`: `[term:u64][success:u8][match_index:u64]`
//! - log entry: `[term:u64][index:u64][task_id:string][payload_length:u32][payload]`
//!
//! A message family payload is a kind byte (1 for the request, 2 for the
//! reply) followed by the message payload.

use super::{
    entries_view, AppendEntries, AppendEntriesReply, AppendEntriesView, EntryView, RaftCodecError,
    RaftLogEntry, RaftMessage, RaftMessageView, RequestVote, RequestVoteReply, RequestVoteView,
};
use crate::codec::{self, push_bool, push_bytes, push_string, push_u16, push_u32, push_u64, ByteReader};
use vstd::prelude::*;
use vstd::slice::slice_to_vec;

verus! {

pub const REQUEST_KIND: u8 = 1;
pub const REPLY_KIND: u8 = 2;

// ---------------------------------------------------------------------------
// Wire bytes

pub open spec fn request_vote_bytes(m: RequestVoteView) -> Seq<u8> {
    codec::u64_be(m.term) + codec::string_field(m.candidate_id) + codec::u64_be(m.last_log_index)
        + codec::u64_be(m.last_log_term)
}

pub open spec fn request_vote_reply_bytes(m: RequestVoteReply) -> Seq<u8> {
    codec::u64_be(m.term) + seq![codec::bool_byte(m.vote_granted)]
}

pub open spec fn entry_bytes(e: EntryView) -> Seq<u8> {
    codec::u64_be(e.term) + codec::u64_be(e.index) + codec::string_field(e.task_id) + codec::u32_be(
        e.payload.len() as u32,
    ) + e.payload
}

pub open spec fn entries_bytes(es: Seq<EntryView>) -> Seq<u8>
    decreases es.len(),
{
    if es.len() == 0 {
        Seq::empty()
    } else {
        entries_bytes(es.drop_last()) + entry_bytes(es.last())
    }
}

pub open spec fn append_entries_bytes(m: AppendEntriesView) -> Seq<u8> {
    codec::u64_be(m.term) + codec::string_field(m.leader_id) + codec::u64_be(m.prev_log_index)
        + codec::u64_be(m.prev_log_term) + codec::u64_be(m.leader_commit) + codec::u16_be(
        m.entries.len() as u16,
    ) + entries_bytes(m.entries)
}

pub open spec fn append_entries_reply_bytes(m: AppendEntriesReply) -> Seq<u8> {
    codec::u64_be(m.term) + seq![codec::bool_byte(m.success)] + codec::u64_be(m.match_index)
}

// ---------------------------------------------------------------------------
// What can be encoded

pub open spec fn request_vote_fits(m: RequestVoteView) -> bool {
    codec::string_fits(m.candidate_id)
}

pub open spec fn entry_fits(e: EntryView) -> bool {
    codec::string_fits(e.task_id) && e.payload.len() <= u32::MAX
}

pub open spec fn append_entries_fits(m: AppendEntriesView) -> bool {
    &&& codec::string_fits(m.leader_id)
    &&& m.entries.len() <= u16::MAX
    &&& forall|i: int| 0 <= i < m.entries.len() ==> #[trigger] entry_fits(m.entries[i])
}

// ---------------------------------------------------------------------------
// Parsing

pub open spec fn parse_request_vote(b: Seq<u8>) -> Option<RequestVoteView> {
    match codec::take_u64(b) {
        Some((term, r1)) => match codec::take_string(r1) {
            Some((candidate_id, r2)) => match codec::take_u64(r2) {
                Some((last_log_index, r3)) => match codec::take_u64(r3) {
                    Some((last_log_term, r4)) => if r4.len() == 0 {
                        Some(RequestVoteView { term, candidate_id, last_log_index, last_log_term })
                    } else {
                        None
                    },
                    None => None,
                },
                None => None,
            },
            None => None,
        },
        None => None,
    }
}

pub open spec fn parse_request_vote_reply(b: Seq<u8>) -> Option<RequestVoteReply> {
    match codec::take_u64(b) {
        Some((term, r1)) => match codec::take_bool(r1) {
            Some((vote_granted, r2)) => if r2.len() == 0 {
                Some(RequestVoteReply { term, vote_granted })
            } else {
                None
            },
            None => None,
        },
        None => None,
    }
}

#[verifier::opaque]
pub open spec fn parse_entry(b: Seq<u8>) -> Option<(EntryView, Seq<u8>)> {
    match codec::take_u64(b) {
        Some((term, r1)) => match codec::take_u64(r1) {
            Some((index, r2)) => match codec::take_string(r2) {
                Some((task_id, r3)) => match codec::take_u32(r3) {
                    Some((n, r4)) => match codec::take_bytes(r4, n as nat) {
                        Some((payload, r5)) => Some((EntryView { term, index, task_id, payload }, r5)),
                        None => None,
                    },
                    None => None,
                },
                None => None,
            },
            None => None,
        },
        None => None,
    }
}

/// Parses `n` consecutive entries from the front of `b`.
pub open spec fn parse_entries(b: Seq<u8>, n: nat) -> Option<(Seq<EntryView>, Seq<u8>)>
    decreases n,
{
    if n == 0 {
        Some((Seq::empty(), b))
    } else {
        match parse_entries(b, (n - 1) as nat) {
            Some((es, r)) => match parse_entry(r) {
                Some((e, r2)) => Some((es.push(e), r2)),
                None => None,
            },
            None => None,
        }
    }
}

pub open spec fn parse_append_entries(b: Seq<u8>) -> Option<AppendEntriesView> {
    match codec::take_u64(b) {
        Some((term, r1)) => match codec::take_string(r1) {
            Some((leader_id, r2)) => match codec::take_u64(r2) {
                Some((prev_log_index, r3)) => match codec::take_u64(r3) {
                    Some((prev_log_term, r4)) => match codec::take_u64(r4) {
                        Some((leader_commit, r5)) => match codec::take_u16(r5) {
                            Some((count, r6)) => match parse_entries(r6, count as nat) {
                                Some((entries, r7)) => if r7.len() == 0 {
                                    Some(AppendEntriesView {
                                        term,
                                        leader_id,
                                        prev_log_index,
                                        prev_log_term,
                                        entries,
                                        leader_commit,
                                    })
                                } else {
                                    None
                                },
                                None => None,
                            },
                            None => None,
                        },
                        None => None,
                    },
                    None => None,
                },
                None => None,
            },
            None => None,
        },
        None => None,
    }
}

pub open spec fn parse_append_entries_reply(b: Seq<u8>) -> Option<AppendEntriesReply> {
    match codec::take_u64(b) {
        Some((term, r1)) => match codec::take_bool(r1) {
            Some((success, r2)) => match codec::take_u64(r2) {
                Some((match_index, r3)) => if r3.len() == 0 {
                    Some(AppendEntriesReply { term, success, match_index })
                } else {
                    None
                },
                None => None,
            },
            None => None,
        },
        None => None,
    }
}

/// What decoding a `RequestVote` family payload yields.
pub open spec fn parse_request_vote_family(b: Seq<u8>) -> Option<RaftMessageView> {
    if b.len() == 0 {
        None
    } else if b[0] == REQUEST_KIND {
        match parse_request_vote(b.skip(1)) {
            Some(m) => Some(RaftMessageView::RequestVote(m)),
            None => None,
        }
    } else if b[0] == REPLY_KIND {
        match parse_request_vote_reply(b.skip(1)) {
            Some(m) => Some(RaftMessageView::RequestVoteReply(m)),
            None => None,
        }
    } else {
        None
    }
}

/// What decoding an `AppendEntries` family payload yields.
pub open spec fn parse_append_entries_family(b: Seq<u8>) -> Option<RaftMessageView> {
    if b.len() == 0 {
        None
    } else if b[0] == REQUEST_KIND {
        match parse_append_entries(b.skip(1)) {
            Some(m) => Some(RaftMessageView::AppendEntries(m)),
            None => None,
        }
    } else if b[0] == REPLY_KIND {
        match parse_append_entries_reply(b.skip(1)) {
            Some(m) => Some(RaftMessageView::AppendEntriesReply(m)),
            None => None,
        }
    } else {
        None
    }
}

/// The bytes of a `RequestVote` family payload; `None` when the message is
/// of the other family or does not fit.
pub open spec fn request_vote_family_bytes(m: RaftMessageView) -> Option<Seq<u8>> {
    match m {
        RaftMessageView::RequestVote(v) => if request_vote_fits(v) {
            Some(seq![REQUEST_KIND] + request_vote_bytes(v))
        } else {
            None
        },
        RaftMessageView::RequestVoteReply(r) => Some(seq![REPLY_KIND] + request_vote_reply_bytes(r)),
        _ => None,
    }
}

/// The bytes of an `AppendEntries` family payload; `None` when the message is
/// of the other family or does not fit.
pub open spec fn append_entries_family_bytes(m: RaftMessageView) -> Option<Seq<u8>> {
    match m {
        RaftMessageView::AppendEntries(v) => if append_entries_fits(v) {
            Some(seq![REQUEST_KIND] + append_entries_bytes(v))
        } else {
            None
        },
        RaftMessageView::AppendEntriesReply(r) => Some(seq![REPLY_KIND] + append_entries_reply_bytes(r)),
        _ => None,
    }
}

// ---------------------------------------------------------------------------
// Laws: decoding inverts encoding, and accepts nothing but canonical bytes.

/// Decoding the bytes of a `RequestVote` gives it back.
pub proof fn lemma_request_vote_round_trip(m: RequestVoteView)
    requires
        request_vote_fits(m),
    ensures
        parse_request_vote(request_vote_bytes(m)) == Some(m),
{
    let e = Seq::<u8>::empty();
    let r3 = codec::u64_be(m.last_log_term) + e;
    let r2 = codec::u64_be(m.last_log_index) + r3;
    let r1 = codec::string_field(m.candidate_id) + r2;
    assert(request_vote_bytes(m) =~= codec::u64_be(m.term) + r1);
    codec::lemma_take_u64(m.term, r1);
    codec::lemma_take_string(m.candidate_id, r2);
    codec::lemma_take_u64(m.last_log_index, r3);
    codec::lemma_take_u64(m.last_log_term, e);
}

/// Bytes that decode as a `RequestVote` are exactly its encoding.
pub proof fn lemma_request_vote_canonical(b: Seq<u8>)
    requires
        parse_request_vote(b) is Some,
    ensures
        request_vote_fits(parse_request_vote(b).unwrap()),
        request_vote_bytes(parse_request_vote(b).unwrap()) == b,
{
    let m = parse_request_vote(b).unwrap();
    codec::lemma_take_u64_inv(b);
    let r1 = codec::take_u64(b).unwrap().1;
    codec::lemma_take_string_inv(r1);
    let r2 = codec::take_string(r1).unwrap().1;
    codec::lemma_take_u64_inv(r2);
    let r3 = codec::take_u64(r2).unwrap().1;
    codec::lemma_take_u64_inv(r3);
    let r4 = codec::take_u64(r3).unwrap().1;
    assert(r4 =~= Seq::<u8>::empty());
    assert(b =~= request_vote_bytes(m));
}

/// Decoding the bytes of a `RequestVoteReply` gives it back.
pub proof fn lemma_request_vote_reply_round_trip(m: RequestVoteReply)
    ensures
        parse_request_vote_reply(request_vote_reply_bytes(m)) == Some(m),
{
    let e = Seq::<u8>::empty();
    let r1 = seq![codec::bool_byte(m.vote_granted)] + e;
    assert(request_vote_reply_bytes(m) =~= codec::u64_be(m.term) + r1);
    codec::lemma_take_u64(m.term, r1);
    codec::lemma_take_bool(m.vote_granted, e);
}

/// Bytes that decode as a `RequestVoteReply` are exactly its encoding.
pub proof fn lemma_request_vote_reply_canonical(b: Seq<u8>)
    requires
        parse_request_vote_reply(b) is Some,
    ensures
        request_vote_reply_bytes(parse_request_vote_reply(b).unwrap()) == b,
{
    let m = parse_request_vote_reply(b).unwrap();
    codec::lemma_take_u64_inv(b);
    let r1 = codec::take_u64(b).unwrap().1;
    codec::lemma_take_bool_inv(r1);
    let r2 = codec::take_bool(r1).unwrap().1;
    assert(r2 =~= Seq::<u8>::empty());
    assert(b =~= request_vote_reply_bytes(m));
}

/// Decoding the bytes of an `AppendEntriesReply` gives it back.
pub proof fn lemma_append_entries_reply_round_trip(m: AppendEntriesReply)
    ensures
        parse_append_entries_reply(append_entries_reply_bytes(m)) == Some(m),
{
    let e = Seq::<u8>::empty();
    let r2 = codec::u64_be(m.match_index) + e;
    let r1 = seq![codec::bool_byte(m.success)] + r2;
    assert(append_entries_reply_bytes(m) =~= codec::u64_be(m.term) + r1);
    codec::lemma_take_u64(m.term, r1);
    codec::lemma_take_bool(m.success, r2);
    codec::lemma_take_u64(m.match_index, e);
}

/// Bytes that decode as an `AppendEntriesReply` are exactly its encoding.
pub proof fn lemma_append_entries_reply_canonical(b: Seq<u8>)
    requires
        parse_append_entries_reply(b) is Some,
    ensures
        append_entries_reply_bytes(parse_append_entries_reply(b).unwrap()) == b,
{
    let m = parse_append_entries_reply(b).unwrap();
    codec::lemma_take_u64_inv(b);
    let r1 = codec::take_u64(b).unwrap().1;
    codec::lemma_take_bool_inv(r1);
    let r2 = codec::take_bool(r1).unwrap().1;
    codec::lemma_take_u64_inv(r2);
    let r3 = codec::take_u64(r2).unwrap().1;
    assert(r3 =~= Seq::<u8>::empty());
    assert(b =~= append_entries_reply_bytes(m));
}

pub proof fn lemma_entry_round_trip(e: EntryView, rest: Seq<u8>)
    requires
        entry_fits(e),
    ensures
        parse_entry(entry_bytes(e) + rest) == Some((e, rest)),
{
    reveal(parse_entry);
    let r4 = e.payload + rest;
    let r3 = codec::u32_be(e.payload.len() as u32) + r4;
    let r2 = codec::string_field(e.task_id) + r3;
    let r1 = codec::u64_be(e.index) + r2;
    assert(entry_bytes(e) + rest =~= codec::u64_be(e.term) + r1);
    codec::lemma_take_u64(e.term, r1);
    codec::lemma_take_u64(e.index, r2);
    codec::lemma_take_string(e.task_id, r3);
    codec::lemma_take_u32(e.payload.len() as u32, r4);
    codec::lemma_take_bytes(e.payload, rest);
}

proof fn lemma_entry_assemble(
    b: Seq<u8>,
    r1: Seq<u8>,
    r2: Seq<u8>,
    r3: Seq<u8>,
    r4: Seq<u8>,
    rest: Seq<u8>,
    e: EntryView,
    n: u32,
)
    requires
        b == codec::u64_be(e.term) + r1,
        r1 == codec::u64_be(e.index) + r2,
        r2 == codec::string_field(e.task_id) + r3,
        r3 == codec::u32_be(n) + r4,
        r4 == e.payload + rest,
        e.payload.len() == n,
    ensures
        b == entry_bytes(e) + rest,
{
    assert(b =~= entry_bytes(e) + rest);
}

pub proof fn lemma_entry_canonical(b: Seq<u8>)
    requires
        parse_entry(b) is Some,
    ensures
        entry_fits(parse_entry(b).unwrap().0),
        b == entry_bytes(parse_entry(b).unwrap().0) + parse_entry(b).unwrap().1,
{
    reveal(parse_entry);
    let (e, rest) = parse_entry(b).unwrap();
    let (term, r1) = codec::take_u64(b).unwrap();
    let (index, r2) = codec::take_u64(r1).unwrap();
    let (task_id, r3) = codec::take_string(r2).unwrap();
    let (n, r4) = codec::take_u32(r3).unwrap();
    let (payload, r5) = codec::take_bytes(r4, n as nat).unwrap();
    assert(e == EntryView { term, index, task_id, payload } && rest == r5);
    codec::lemma_take_u64_inv(b);
    codec::lemma_take_u64_inv(r1);
    codec::lemma_take_string_inv(r2);
    codec::lemma_take_u32_inv(r3);
    codec::lemma_take_bytes_inv(r4, n as nat);
    lemma_entry_assemble(b, r1, r2, r3, r4, rest, e, n);
}

proof fn lemma_u32_len_round_trip(n: u32, len: nat)
    requires
        len == n,
    ensures
        codec::u32_be(len as u32) == codec::u32_be(n),
{
}

pub proof fn lemma_entries_round_trip(es: Seq<EntryView>, rest: Seq<u8>)
    requires
        forall|i: int| 0 <= i < es.len() ==> #[trigger] entry_fits(es[i]),
    ensures
        parse_entries(entries_bytes(es) + rest, es.len()) == Some((es, rest)),
    decreases es.len(),
{
    if es.len() > 0 {
        let init = es.drop_last();
        let tail = entry_bytes(es.last()) + rest;
        assert(entries_bytes(es) + rest =~= entries_bytes(init) + tail);
        assert forall|i: int| 0 <= i < init.len() implies #[trigger] entry_fits(init[i]) by {
            assert(init[i] == es[i]);
        }
        lemma_entries_round_trip(init, tail);
        assert(entry_fits(es[es.len() - 1]));
        lemma_entry_round_trip(es.last(), rest);
        assert(init.push(es.last()) =~= es);
    } else {
        assert(entries_bytes(es) + rest =~= rest);
    }
}

pub proof fn lemma_entries_canonical(b: Seq<u8>, n: nat)
    requires
        parse_entries(b, n) is Some,
    ensures
        parse_entries(b, n).unwrap().0.len() == n,
        forall|i: int|
            0 <= i < n ==> #[trigger] entry_fits(parse_entries(b, n).unwrap().0[i]),
        b == entries_bytes(parse_entries(b, n).unwrap().0) + parse_entries(b, n).unwrap().1,
    decreases n,
{
    if n == 0 {
        assert(b =~= entries_bytes(Seq::<EntryView>::empty()) + b);
    } else {
        let (es, r) = parse_entries(b, (n - 1) as nat).unwrap();
        lemma_entries_canonical(b, (n - 1) as nat);
        lemma_entry_canonical(r);
        let (e, r2) = parse_entry(r).unwrap();
        let all = es.push(e);
        assert(all.drop_last() =~= es);
        assert(b =~= entries_bytes(all) + r2);
        assert forall|i: int| 0 <= i < n implies #[trigger] entry_fits(all[i]) by {
            if i < n - 1 {
                assert(all[i] == es[i]);
            }
        }
    }
}

/// Once `n` entries cannot be parsed, no longer run can be either.
pub proof fn lemma_entries_fail_monotone(b: Seq<u8>, n: nat, m: nat)
    requires
        parse_entries(b, n) is None,
        n <= m,
    ensures
        parse_entries(b, m) is None,
    decreases m,
{
    if n < m {
        lemma_entries_fail_monotone(b, n, (m - 1) as nat);
    }
}

/// Decoding the bytes of an `AppendEntries` gives it back.
pub proof fn lemma_append_entries_round_trip(m: AppendEntriesView)
    requires
        append_entries_fits(m),
    ensures
        parse_append_entries(append_entries_bytes(m)) == Some(m),
{
    let e = Seq::<u8>::empty();
    let r6 = entries_bytes(m.entries) + e;
    let r5 = codec::u16_be(m.entries.len() as u16) + r6;
    let r4 = codec::u64_be(m.leader_commit) + r5;
    let r3 = codec::u64_be(m.prev_log_term) + r4;
    let r2 = codec::u64_be(m.prev_log_index) + r3;
    let r1 = codec::string_field(m.leader_id) + r2;
    assert(append_entries_bytes(m) =~= codec::u64_be(m.term) + r1);
    codec::lemma_take_u64(m.term, r1);
    codec::lemma_take_string(m.leader_id, r2);
    codec::lemma_take_u64(m.prev_log_index, r3);
    codec::lemma_take_u64(m.prev_log_term, r4);
    codec::lemma_take_u64(m.leader_commit, r5);
    codec::lemma_take_u16(m.entries.len() as u16, r6);
    lemma_entries_round_trip(m.entries, e);
}

proof fn lemma_append_entries_assemble(
    b: Seq<u8>,
    r1: Seq<u8>,
    r2: Seq<u8>,
    r3: Seq<u8>,
    r4: Seq<u8>,
    r5: Seq<u8>,
    r6: Seq<u8>,
    m: AppendEntriesView,
    count: u16,
)
    requires
        b == codec::u64_be(m.term) + r1,
        r1 == codec::string_field(m.leader_id) + r2,
        r2 == codec::u64_be(m.prev_log_index) + r3,
        r3 == codec::u64_be(m.prev_log_term) + r4,
        r4 == codec::u64_be(m.leader_commit) + r5,
        r5 == codec::u16_be(count) + r6,
        r6 == entries_bytes(m.entries),
        m.entries.len() == count,
    ensures
        b == append_entries_bytes(m),
{
    assert(b =~= append_entries_bytes(m));
}

/// Bytes that decode as an `AppendEntries` are exactly its encoding.
pub proof fn lemma_append_entries_canonical(b: Seq<u8>)
    requires
        parse_append_entries(b) is Some,
    ensures
        append_entries_fits(parse_append_entries(b).unwrap()),
        append_entries_bytes(parse_append_entries(b).unwrap()) == b,
{
    let m = parse_append_entries(b).unwrap();
    let (term, r1) = codec::take_u64(b).unwrap();
    let (leader_id, r2) = codec::take_string(r1).unwrap();
    let (prev_log_index, r3) = codec::take_u64(r2).unwrap();
    let (prev_log_term, r4) = codec::take_u64(r3).unwrap();
    let (leader_commit, r5) = codec::take_u64(r4).unwrap();
    let (count, r6) = codec::take_u16(r5).unwrap();
    let (entries, r7) = parse_entries(r6, count as nat).unwrap();
    assert(m == AppendEntriesView { term, leader_id, prev_log_index, prev_log_term, entries, leader_commit });
    assert(r7.len() == 0);
    codec::lemma_take_u64_inv(b);
    codec::lemma_take_string_inv(r1);
    codec::lemma_take_u64_inv(r2);
    codec::lemma_take_u64_inv(r3);
    codec::lemma_take_u64_inv(r4);
    codec::lemma_take_u16_inv(r5);
    lemma_entries_canonical(r6, count as nat);
    assert(r6 =~= entries_bytes(entries));
    lemma_append_entries_assemble(b, r1, r2, r3, r4, r5, r6, m, count);
}

/// Decoding a `RequestVote` family payload inverts encoding it.
pub proof fn lemma_request_vote_family_round_trip(m: RaftMessageView)
    requires
        request_vote_family_bytes(m) is Some,
    ensures
        parse_request_vote_family(request_vote_family_bytes(m).unwrap()) == Some(m),
{
    let b = request_vote_family_bytes(m).unwrap();
    match m {
        RaftMessageView::RequestVote(v) => {
            assert(b.skip(1) =~= request_vote_bytes(v));
            lemma_request_vote_round_trip(v);
        },
        RaftMessageView::RequestVoteReply(r) => {
            assert(b.skip(1) =~= request_vote_reply_bytes(r));
            lemma_request_vote_reply_round_trip(r);
        },
        _ => {},
    }
}

/// A `RequestVote` family payload that decodes is exactly the encoding of
/// what it decodes to.
pub proof fn lemma_request_vote_family_canonical(b: Seq<u8>)
    requires
        parse_request_vote_family(b) is Some,
    ensures
        request_vote_family_bytes(parse_request_vote_family(b).unwrap()) == Some(b),
{
    assert(b =~= seq![b[0]] + b.skip(1));
    if b[0] == REQUEST_KIND {
        lemma_request_vote_canonical(b.skip(1));
    } else {
        lemma_request_vote_reply_canonical(b.skip(1));
    }
}

/// Decoding an `AppendEntries` family payload inverts encoding it.
pub proof fn lemma_append_entries_family_round_trip(m: RaftMessageView)
    requires
        append_entries_family_bytes(m) is Some,
    ensures
        parse_append_entries_family(append_entries_family_bytes(m).unwrap()) == Some(m),
{
    let b = append_entries_family_bytes(m).unwrap();
    match m {
        RaftMessageView::AppendEntries(v) => {
            assert(b.skip(1) =~= append_entries_bytes(v));
            lemma_append_entries_round_trip(v);
        },
        RaftMessageView::AppendEntriesReply(r) => {
            assert(b.skip(1) =~= append_entries_reply_bytes(r));
            lemma_append_entries_reply_round_trip(r);
        },
        _ => {},
    }
}

/// An `AppendEntries` family payload that decodes is exactly the encoding of
/// what it decodes to.
pub proof fn lemma_append_entries_family_canonical(b: Seq<u8>)
    requires
        parse_append_entries_family(b) is Some,
    ensures
        append_entries_family_bytes(parse_append_entries_family(b).unwrap()) == Some(b),
{
    assert(b =~= seq![b[0]] + b.skip(1));
    if b[0] == REQUEST_KIND {
        lemma_append_entries_canonical(b.skip(1));
    } else {
        lemma_append_entries_reply_canonical(b.skip(1));
    }
}

// ---------------------------------------------------------------------------
// Executable codecs

impl RequestVote {
    /// The payload bytes; `PayloadTooLarge` when the candidate id is longer
    /// than a `u16` length allows.
    pub fn encode(&self) -> (r: Result<Vec<u8>, RaftCodecError>)
        ensures
            request_vote_fits(self@) ==> (r matches Ok(b) && b@ == request_vote_bytes(self@)),
            !request_vote_fits(self@) ==> r == Err::<Vec<u8>, RaftCodecError>(RaftCodecError::PayloadTooLarge),
    {
        let mut payload: Vec<u8> = Vec::new();
        push_u64(&mut payload, self.term);
        if !push_string(&mut payload, self.candidate_id.as_str()) {
            return Err(RaftCodecError::PayloadTooLarge);
        }
        push_u64(&mut payload, self.last_log_index);
        push_u64(&mut payload, self.last_log_term);
        assert(payload@ =~= request_vote_bytes(self@));
        Ok(payload)
    }

    /// Decodes a whole payload; `InvalidPayload` unless it is exactly one
    /// encoded `RequestVote`.
    pub fn decode(payload: &[u8]) -> (r: Result<RequestVote, RaftCodecError>)
        ensures
            match parse_request_vote(payload@) {
                Some(m) => r matches Ok(v) && v@ == m,
                None => r == Err::<RequestVote, RaftCodecError>(RaftCodecError::InvalidPayload),
            },
    {
        let mut reader = ByteReader::new(payload);
        let term = match reader.read_u64() { Some(x) => x, None => return Err(RaftCodecError::InvalidPayload) };
        let candidate_id = match reader.read_string() { Some(x) => x, None => return Err(RaftCodecError::InvalidPayload) };
        let last_log_index = match reader.read_u64() { Some(x) => x, None => return Err(RaftCodecError::InvalidPayload) };
        let last_log_term = match reader.read_u64() { Some(x) => x, None => return Err(RaftCodecError::InvalidPayload) };
        if !reader.is_finished() {
            return Err(RaftCodecError::InvalidPayload);
        }
        Ok(RequestVote { term, candidate_id, last_log_index, last_log_term })
    }
}

impl RequestVoteReply {
    pub fn encode(&self) -> (b: Vec<u8>)
        ensures
            b@ == request_vote_reply_bytes(*self),
    {
        let mut payload: Vec<u8> = Vec::with_capacity(9);
        push_u64(&mut payload, self.term);
        push_bool(&mut payload, self.vote_granted);
        assert(payload@ =~= request_vote_reply_bytes(*self));
        payload
    }

    /// Decodes a whole payload; `InvalidPayload` unless it is exactly one
    /// encoded reply (the vote byte being 0 or 1).
    pub fn decode(payload: &[u8]) -> (r: Result<RequestVoteReply, RaftCodecError>)
        ensures
            match parse_request_vote_reply(payload@) {
                Some(m) => r == Ok::<RequestVoteReply, RaftCodecError>(m),
                None => r == Err::<RequestVoteReply, RaftCodecError>(RaftCodecError::InvalidPayload),
            },
    {
        let mut reader = ByteReader::new(payload);
        let term = match reader.read_u64() { Some(x) => x, None => return Err(RaftCodecError::InvalidPayload) };
        let vote_granted = match reader.read_bool() { Some(x) => x, None => return Err(RaftCodecError::InvalidPayload) };
        if !reader.is_finished() {
            return Err(RaftCodecError::InvalidPayload);
        }
        Ok(RequestVoteReply { term, vote_granted })
    }
}

impl AppendEntriesReply {
    pub fn encode(&self) -> (b: Vec<u8>)
        ensures
            b@ == append_entries_reply_bytes(*self),
    {
        let mut payload: Vec<u8> = Vec::with_capacity(17);
        push_u64(&mut payload, self.term);
        push_bool(&mut payload, self.success);
        push_u64(&mut payload, self.match_index);
        assert(payload@ =~= append_entries_reply_bytes(*self));
        payload
    }

    /// Decodes a whole payload; `InvalidPayload` unless it is exactly one
    /// encoded reply.
    pub fn decode(payload: &[u8]) -> (r: Result<AppendEntriesReply, RaftCodecError>)
        ensures
            match parse_append_entries_reply(payload@) {
                Some(m) => r == Ok::<AppendEntriesReply, RaftCodecError>(m),
                None => r == Err::<AppendEntriesReply, RaftCodecError>(RaftCodecError::InvalidPayload),
            },
    {
        let mut reader = ByteReader::new(payload);
        let term = match reader.read_u64() { Some(x) => x, None => return Err(RaftCodecError::InvalidPayload) };
        let success = match reader.read_bool() { Some(x) => x, None => return Err(RaftCodecError::InvalidPayload) };
        let match_index = match reader.read_u64() { Some(x) => x, None => return Err(RaftCodecError::InvalidPayload) };
        if !reader.is_finished() {
            return Err(RaftCodecError::InvalidPayload);
        }
        Ok(AppendEntriesReply { term, success, match_index })
    }
}

/// Appends one encoded log entry; `false` when its task id or payload is too
/// long, in which case `out` holds a partial encoding.
pub(crate) fn encode_log_entry(out: &mut Vec<u8>, entry: &RaftLogEntry) -> (ok: bool)
    ensures
        ok == entry_fits(entry@),
        ok ==> final(out)@ == old(out)@ + entry_bytes(entry@),
{
    push_u64(out, entry.term);
    push_u64(out, entry.index);
    if !push_string(out, entry.task_id.as_str()) {
        return false;
    }
    if entry.payload.len() > 4294967295 {
        return false;
    }
    push_u32(out, entry.payload.len() as u32);
    push_bytes(out, entry.payload.as_slice());
    assert(final(out)@ =~= old(out)@ + entry_bytes(entry@));
    true
}

/// Reads one encoded log entry.
fn decode_log_entry(reader: &mut ByteReader) -> (r: Option<RaftLogEntry>)
    requires
        old(reader).wf(),
    ensures
        final(reader).wf(),
        match parse_entry(old(reader).rest()) {
            Some((e, rest)) => r matches Some(x) && x@ == e && final(reader).rest() == rest,
            None => r is None,
        },
{
    reveal(parse_entry);
    let term = match reader.read_u64() { Some(x) => x, None => return None };
    let index = match reader.read_u64() { Some(x) => x, None => return None };
    let task_id = match reader.read_string() { Some(x) => x, None => return None };
    let payload_len = match reader.read_u32() { Some(x) => x, None => return None };
    let payload = match reader.read_exact(payload_len as usize) { Some(x) => slice_to_vec(x), None => return None };
    Some(RaftLogEntry { term, index, task_id, payload })
}

/// Reads `count` consecutive encoded log entries.
fn decode_log_entries(reader: &mut ByteReader, count: u16) -> (r: Option<Vec<RaftLogEntry>>)
    requires
        old(reader).wf(),
    ensures
        final(reader).wf(),
        match parse_entries(old(reader).rest(), count as nat) {
            Some((es, rest)) => r matches Some(v) && entries_view(v@) == es && final(reader).rest() == rest,
            None => r is None,
        },
{
    let ghost start = reader.rest();
    let mut entries: Vec<RaftLogEntry> = Vec::new();
    let mut i: u16 = 0;
    assert(entries_view(entries@) =~= Seq::<EntryView>::empty());
    while i < count
        invariant
            start == old(reader).rest(),
            reader.wf(),
            i <= count,
            parse_entries(start, i as nat) == Some((entries_view(entries@), reader.rest())),
        decreases count - i,
    {
        let ghost before = entries@;
        let ghost rest_before = reader.rest();
        match decode_log_entry(reader) {
            Some(e) => {
                entries.push(e);
                assert(entries_view(entries@) =~= entries_view(before).push(e@));
            },
            None => {
                proof { lemma_entries_fail_monotone(start, (i + 1) as nat, count as nat); }
                return None;
            },
        }
        i = i + 1;
    }
    Some(entries)
}

impl AppendEntries {
    /// The payload bytes; `PayloadTooLarge` when the leader id or a task id
    /// is longer than a `u16` length allows, there are more than `u16::MAX`
    /// entries, or an entry payload exceeds `u32::MAX` bytes.
    pub fn encode(&self) -> (r: Result<Vec<u8>, RaftCodecError>)
        ensures
            append_entries_fits(self@) ==> (r matches Ok(b) && b@ == append_entries_bytes(self@)),
            !append_entries_fits(self@) ==> r == Err::<Vec<u8>, RaftCodecError>(RaftCodecError::PayloadTooLarge),
    {
        let mut payload: Vec<u8> = Vec::new();
        push_u64(&mut payload, self.term);
        if !push_string(&mut payload, self.leader_id.as_str()) {
            return Err(RaftCodecError::PayloadTooLarge);
        }
        push_u64(&mut payload, self.prev_log_index);
        push_u64(&mut payload, self.prev_log_term);
        push_u64(&mut payload, self.leader_commit);
        if self.entries.len() > 65535 {
            return Err(RaftCodecError::PayloadTooLarge);
        }
        push_u16(&mut payload, self.entries.len() as u16);
        let ghost head = payload@;
        let ghost es = entries_view(self.entries@);
        let mut i: usize = 0;
        assert(es.take(0) =~= Seq::<EntryView>::empty());
        while i < self.entries.len()
            invariant
                es == entries_view(self.entries@),
                i <= es.len(),
                payload@ == head + entries_bytes(es.take(i as int)),
                forall|j: int| 0 <= j < i ==> #[trigger] entry_fits(es[j]),
            decreases es.len() - i,
        {
            let ghost before = payload@;
            if !encode_log_entry(&mut payload, &self.entries[i]) {
                assert(!entry_fits(es[i as int]));
                return Err(RaftCodecError::PayloadTooLarge);
            }
            assert(es.take(i + 1).drop_last() =~= es.take(i as int));
            assert(es.take(i + 1).last() == es[i as int]);
            assert(payload@ =~= head + entries_bytes(es.take(i + 1)));
            i = i + 1;
        }
        assert(es.take(i as int) =~= es);
        assert(payload@ =~= append_entries_bytes(self@));
        Ok(payload)
    }

    /// Decodes a whole payload; `InvalidPayload` unless it is exactly one
    /// encoded `AppendEntries`.
    pub fn decode(payload: &[u8]) -> (r: Result<AppendEntries, RaftCodecError>)
        ensures
            match parse_append_entries(payload@) {
                Some(m) => r matches Ok(v) && v@ == m,
                None => r == Err::<AppendEntries, RaftCodecError>(RaftCodecError::InvalidPayload),
            },
    {
        let mut reader = ByteReader::new(payload);
        let term = match reader.read_u64() { Some(x) => x, None => return Err(RaftCodecError::InvalidPayload) };
        let leader_id = match reader.read_string() { Some(x) => x, None => return Err(RaftCodecError::InvalidPayload) };
        let prev_log_index = match reader.read_u64() { Some(x) => x, None => return Err(RaftCodecError::InvalidPayload) };
        let prev_log_term = match reader.read_u64() { Some(x) => x, None => return Err(RaftCodecError::InvalidPayload) };
        let leader_commit = match reader.read_u64() { Some(x) => x, None => return Err(RaftCodecError::InvalidPayload) };
        let entry_count = match reader.read_u16() { Some(x) => x, None => return Err(RaftCodecError::InvalidPayload) };
        let entries = match decode_log_entries(&mut reader, entry_count) {
            Some(x) => x,
            None => return Err(RaftCodecError::InvalidPayload),
        };
        if !reader.is_finished() {
            return Err(RaftCodecError::InvalidPayload);
        }
        Ok(AppendEntries { term, leader_id, prev_log_index, prev_log_term, entries, leader_commit })
    }
}

fn with_kind(kind: u8, payload: Vec<u8>) -> (r: Vec<u8>)
    ensures
        r@ == seq![kind] + payload@,
{
    let mut encoded: Vec<u8> = Vec::new();
    encoded.push(kind);
    push_bytes(&mut encoded, payload.as_slice());
    assert(encoded@ =~= seq![kind] + payload@);
    encoded
}

fn split_kind(payload: &[u8]) -> (r: Option<(u8, &[u8])>)
    ensures
        payload@.len() == 0 ==> r is None,
        payload@.len() > 0 ==> (r matches Some((k, rest)) && k == payload@[0] && rest@ == payload@.skip(1)),
{
    if payload.len() == 0 {
        return None;
    }
    let rest = vstd::slice::slice_subrange(payload, 1, payload.len());
    assert(rest@ =~= payload@.skip(1));
    Some((payload[0], rest))
}

impl RaftMessage {
    /// A `RequestVote` family payload: kind 1 and a `RequestVote`, or kind 2
    /// and a `RequestVoteReply`. Messages of the other family give
    /// `InvalidPayload`; a candidate id too long gives `PayloadTooLarge`.
    pub fn encode_request_vote_family(&self) -> (r: Result<Vec<u8>, RaftCodecError>)
        ensures
            match request_vote_family_bytes(self@) {
                Some(b) => r matches Ok(v) && v@ == b,
                None => r == Err::<Vec<u8>, RaftCodecError>(
                    if self is RequestVote { RaftCodecError::PayloadTooLarge } else { RaftCodecError::InvalidPayload },
                ),
            },
    {
        match self {
            RaftMessage::RequestVote(m) => match m.encode() {
                Ok(p) => Ok(with_kind(REQUEST_KIND, p)),
                Err(e) => Err(e),
            },
            RaftMessage::RequestVoteReply(m) => Ok(with_kind(REPLY_KIND, m.encode())),
            _ => Err(RaftCodecError::InvalidPayload),
        }
    }

    /// Decodes a `RequestVote` family payload; `InvalidPayload` unless it is
    /// exactly one such encoded message.
    pub fn decode_request_vote_family(payload: &[u8]) -> (r: Result<RaftMessage, RaftCodecError>)
        ensures
            match parse_request_vote_family(payload@) {
                Some(m) => r matches Ok(v) && v@ == m,
                None => r == Err::<RaftMessage, RaftCodecError>(RaftCodecError::InvalidPayload),
            },
    {
        let (kind, rest) = match split_kind(payload) {
            Some(x) => x,
            None => return Err(RaftCodecError::InvalidPayload),
        };
        if kind == REQUEST_KIND {
            match RequestVote::decode(rest) {
                Ok(m) => Ok(RaftMessage::RequestVote(m)),
                Err(e) => Err(e),
            }
        } else if kind == REPLY_KIND {
            match RequestVoteReply::decode(rest) {
                Ok(m) => Ok(RaftMessage::RequestVoteReply(m)),
                Err(e) => Err(e),
            }
        } else {
            Err(RaftCodecError::InvalidPayload)
        }
    }

    /// An `AppendEntries` family payload: kind 1 and an `AppendEntries`, or
    /// kind 2 and an `AppendEntriesReply`. Messages of the other family give
    /// `InvalidPayload`; a message too large gives `PayloadTooLarge`.
    pub fn encode_append_entries_family(&self) -> (r: Result<Vec<u8>, RaftCodecError>)
        ensures
            match append_entries_family_bytes(self@) {
                Some(b) => r matches Ok(v) && v@ == b,
                None => r == Err::<Vec<u8>, RaftCodecError>(
                    if self is AppendEntries { RaftCodecError::PayloadTooLarge } else { RaftCodecError::InvalidPayload },
                ),
            },
    {
        match self {
            RaftMessage::AppendEntries(m) => match m.encode() {
                Ok(p) => Ok(with_kind(REQUEST_KIND, p)),
                Err(e) => Err(e),
            },
            RaftMessage::AppendEntriesReply(m) => Ok(with_kind(REPLY_KIND, m.encode())),
            _ => Err(RaftCodecError::InvalidPayload),
        }
    }

    /// Decodes an `AppendEntries` family payload; `InvalidPayload` unless it
    /// is exactly one such encoded message.
    pub fn decode_append_entries_family(payload: &[u8]) -> (r: Result<RaftMessage, RaftCodecError>)
        ensures
            match parse_append_entries_family(payload@) {
                Some(m) => r matches Ok(v) && v@ == m,
                None => r == Err::<RaftMessage, RaftCodecError>(RaftCodecError::InvalidPayload),
            },
    {
        let (kind, rest) = match split_kind(payload) {
            Some(x) => x,
            None => return Err(RaftCodecError::InvalidPayload),
        };
        if kind == REQUEST_KIND {
            match AppendEntries::decode(rest) {
                Ok(m) => Ok(RaftMessage::AppendEntries(m)),
                Err(e) => Err(e),
            }
        } else if kind == REPLY_KIND {
            match AppendEntriesReply::decode(rest) {
                Ok(m) => Ok(RaftMessage::AppendEntriesReply(m)),
                Err(e) => Err(e),
            }
        } else {
            Err(RaftCodecError::InvalidPayload)
        }
    }
}

} // verus!
