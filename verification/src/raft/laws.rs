//! Properties of the Raft state machine that span its transitions.

use super::{
    applied_between, AppendEntriesView, EntryView, RaftStateView, RequestVoteReply, RequestVoteView,
    Role,
};
use super::runtime::{sat_add, task_id_for, RuntimeView};
use vstd::prelude::*;

verus! {

/// A node's term never goes down: not on a vote request, a vote reply, an
/// append request, nor on stepping down.
pub proof fn lemma_term_never_decreases(
    s: RaftStateView,
    vote: RequestVoteView,
    reply: RequestVoteReply,
    append: AppendEntriesView,
    term: u64,
)
    ensures
        s.after_request_vote(vote).0.current_term >= s.current_term,
        s.after_vote_reply(reply).0.current_term >= s.current_term,
        s.after_append_entries(append).0.current_term >= s.current_term,
        s.stepped_down(term).current_term >= s.current_term,
        s.stepped_down(term).current_term >= term,
{
}

/// Every reply carries the term the node holds after handling the request.
pub proof fn lemma_replies_carry_current_term(
    s: RaftStateView,
    vote: RequestVoteView,
    append: AppendEntriesView,
)
    ensures
        s.after_request_vote(vote).1.term == s.after_request_vote(vote).0.current_term,
        s.after_append_entries(append).1.term == s.after_append_entries(append).0.current_term,
{
}

/// A request from an older term is refused and changes nothing.
pub proof fn lemma_stale_requests_refused(
    s: RaftStateView,
    vote: RequestVoteView,
    append: AppendEntriesView,
)
    ensures
        vote.term < s.current_term ==> s.after_request_vote(vote).0 == s && !s.after_request_vote(
            vote,
        ).1.vote_granted,
        append.term < s.current_term ==> s.after_append_entries(append).0 == s
            && !s.after_append_entries(append).1.success,
{
}

/// A node votes for at most one candidate per term: once it has granted its
/// vote to one candidate, a request from another candidate in that same
/// term is refused and the recorded vote stays.
pub proof fn lemma_one_vote_per_term(s: RaftStateView, first: RequestVoteView, second: RequestVoteView)
    requires
        s.after_request_vote(first).1.vote_granted,
        second.term == s.after_request_vote(first).0.current_term,
        second.candidate_id != first.candidate_id,
    ensures
        !s.after_request_vote(first).0.after_request_vote(second).1.vote_granted,
        s.after_request_vote(first).0.after_request_vote(second).0.voted_for == Some(first.candidate_id),
{
}

/// A granted vote is for a candidate whose log is at least as up to date as
/// the voter's.
pub proof fn lemma_vote_needs_up_to_date_log(s: RaftStateView, vote: RequestVoteView)
    requires
        s.after_request_vote(vote).1.vote_granted,
    ensures
        s.candidate_log_up_to_date(vote.last_log_index, vote.last_log_term),
        s.after_request_vote(vote).0.voted_for == Some(vote.candidate_id),
{
}

/// Only a candidate becomes leader, and only once the granted votes of its
/// own term reach a majority of the cluster.
pub proof fn lemma_leader_needs_majority(s: RaftStateView, reply: RequestVoteReply)
    requires
        s.after_vote_reply(reply).1 == Some(Role::Leader),
    ensures
        s.role == Role::Candidate,
        reply.vote_granted,
        reply.term == s.current_term,
        s.votes_received + 1 >= s.majority(),
        s.after_vote_reply(reply).0.role == Role::Leader,
{
}

/// A successful append leaves the log as the entries at or before
/// `prev_log_index`, followed by exactly the entries sent, and the reply's
/// match index counts them.
pub proof fn lemma_append_success_shape(s: RaftStateView, append: AppendEntriesView)
    requires
        s.after_append_entries(append).1.success,
        append.entries.len() > 0,
        append.prev_log_index + append.entries.len() <= u64::MAX,
    ensures
        s.after_append_entries(append).0.log == s.log.filter(super::at_or_before(append.prev_log_index))
            + append.entries,
        s.after_append_entries(append).0.log.subrange(
            s.after_append_entries(append).0.log.len() - append.entries.len(),
            s.after_append_entries(append).0.log.len() as int,
        ) == append.entries,
        s.after_append_entries(append).1.match_index == append.prev_log_index + append.entries.len(),
{
    let log = s.after_append_entries(append).0.log;
    let kept = s.log.filter(super::at_or_before(append.prev_log_index));
    assert(log.subrange(log.len() - append.entries.len(), log.len() as int) =~= append.entries);
}

/// Committing never moves the commit index past the last log entry.
pub proof fn lemma_commit_capped(s: RaftStateView, index: u64)
    ensures
        s.committed_through(index).commit_index <= s.last_log_index(),
        s.committed_through(index).commit_index <= index,
{
}

/// Draining twice in a row hands out nothing the second time.
pub proof fn lemma_drain_twice_empty(s: RaftStateView)
    ensures
        s.after_drain().0.after_drain().1 == Seq::<EntryView>::empty(),
        s.after_drain().0.after_drain().0 == s.after_drain().0,
{
    let t = s.after_drain().0;
    assert(t.last_applied >= t.commit_index);
}

/// Applying in two steps hands out the same entries as applying in one: no
/// entry is handed out twice and none is skipped.
pub proof fn lemma_applied_between_split(log: Seq<EntryView>, lo: nat, mid: nat, hi: nat)
    requires
        lo <= mid <= hi,
    ensures
        applied_between(log, lo, mid) + applied_between(log, mid, hi) == applied_between(log, lo, hi),
    decreases hi,
{
    if hi == mid {
        assert(applied_between(log, mid, hi) =~= Seq::<EntryView>::empty());
        assert(applied_between(log, lo, mid) + Seq::<EntryView>::empty() =~= applied_between(log, lo, mid));
    } else {
        lemma_applied_between_split(log, lo, mid, (hi - 1) as nat);
        let a = applied_between(log, lo, mid);
        let b = applied_between(log, mid, (hi - 1) as nat);
        match super::find_entry(log, hi as u64) {
            Some(e) => {
                assert(a + b.push(e) =~= (a + b).push(e));
            },
            None => {},
        }
    }
}

/// An election deadline drawn at `now` lies between `now` plus the minimum
/// timeout and that plus the configured spread (saturating at `u64::MAX`).
pub proof fn lemma_deadline_window(v: RuntimeView, now: u64)
    requires
        v.config.election_timeout_spread_ms < u64::MAX,
    ensures
        sat_add(now, v.config.election_timeout_min_ms) <= v.with_deadline_reset(now).election_deadline,
        v.with_deadline_reset(now).election_deadline <= sat_add(
            sat_add(now, v.config.election_timeout_min_ms),
            v.config.election_timeout_spread_ms,
        ),
{
}

/// Only a leader takes a submitted task; it appends exactly one entry, in
/// its current term, at the next index, named after itself and that index,
/// and sends it behind the entry before it.
pub proof fn lemma_submit_appends_one_entry(v: RuntimeView, payload: Seq<u8>)
    requires
        v.wf(),
        v.state.last_log_index() < u64::MAX,
    ensures
        v.after_submit(payload).1 is None <==> v.state.role != Role::Leader,
        v.after_submit(payload).1 matches Some((e, req)) ==> {
            &&& v.after_submit(payload).0.state.log == v.state.log.push(e)
            &&& e.term == v.state.current_term
            &&& e.index == v.state.last_log_index() + 1
            &&& e.task_id == task_id_for(v.node_id, e.index as nat)
            &&& e.payload == payload
            &&& req.entries == seq![e]
            &&& req.prev_log_index + 1 == e.index
            &&& req.term == v.state.current_term
        },
        v.after_submit(payload).1 is None ==> v.after_submit(payload).0 == v,
{
}

/// A round commits its entry exactly when a majority of the cluster holds
/// it, and commits nothing past the end of the log.
pub proof fn lemma_round_commits_on_majority(v: RuntimeView, replicated: usize, index: u64)
    ensures
        v.after_round(replicated, index).1 <==> replicated >= v.state.majority(),
        v.after_round(replicated, index).1 ==> v.after_round(replicated, index).0.state.commit_index == (
        if index < v.state.last_log_index() { index } else { v.state.last_log_index() }),
        !v.after_round(replicated, index).1 ==> v.after_round(replicated, index).0 == v,
{
}

/// A node with no peers that times out becomes leader of the next term at
/// once.
pub proof fn lemma_lone_node_elects_itself(v: RuntimeView, now: u64)
    requires
        v.wf(),
        v.peers.len() == 0,
        v.state.role != Role::Leader,
        v.state.current_term < u64::MAX,
        now >= v.election_deadline,
    ensures
        v.after_tick(now).0.state.role == Role::Leader,
        v.after_tick(now).0.state.current_term == v.state.current_term + 1,
        v.after_tick(now).0.state.voted_for == Some(v.node_id),
{
}


/// An `AppendEntries` from the current term or a later one makes the node a
/// follower of that term, whatever its role: a candidate or a leader that
/// hears from a leader of its own term steps down, forgetting its vote and
/// the votes it counted. The reply carries that term.
pub proof fn lemma_append_entries_makes_follower(s: RaftStateView, append: AppendEntriesView)
    requires
        append.term >= s.current_term,
    ensures
        s.after_append_entries(append).0.role == Role::Follower,
        s.after_append_entries(append).0.current_term == append.term,
        s.after_append_entries(append).1.term == append.term,
        s.role != Role::Follower ==> s.after_append_entries(append).0.voted_for is None
            && s.after_append_entries(append).0.votes_received == 0,
        s.role == Role::Follower && append.term == s.current_term ==> s.after_append_entries(append).0.voted_for
            == s.voted_for,
{
}

/// Log comparison for votes: a candidate whose last entry has a later term
/// is up to date whatever its length; one whose last entry has an earlier
/// term never is; with equal last terms the longer or equal log is.
pub proof fn lemma_up_to_date_by_last_term(s: RaftStateView, last_log_index: u64, last_log_term: u64)
    ensures
        last_log_term > s.last_log_term() ==> s.candidate_log_up_to_date(last_log_index, last_log_term),
        last_log_term < s.last_log_term() ==> !s.candidate_log_up_to_date(last_log_index, last_log_term),
        last_log_term == s.last_log_term() ==> (s.candidate_log_up_to_date(last_log_index, last_log_term)
            <==> last_log_index >= s.last_log_index()),
{
}

/// A request from a later term whose candidate's last entry has a later
/// term than the voter's last entry wins the vote, however short its log:
/// the voter moves to that term and records its vote for the candidate.
pub proof fn lemma_later_log_term_wins_vote(s: RaftStateView, vote: RequestVoteView)
    requires
        vote.term > s.current_term,
        vote.last_log_term > s.last_log_term(),
    ensures
        s.after_request_vote(vote).1 == (RequestVoteReply { term: vote.term, vote_granted: true }),
        s.after_request_vote(vote).0.voted_for == Some(vote.candidate_id),
        s.after_request_vote(vote).0.current_term == vote.term,
        s.after_request_vote(vote).0.role == Role::Follower,
{
}

/// A vote reply that is not a grant, from the current term or an older one,
/// or any reply from an older term, changes nothing and ends no election;
/// only a reply from a later term makes the node step down.
pub proof fn lemma_refused_vote_changes_nothing(s: RaftStateView, reply: RequestVoteReply)
    ensures
        reply.term <= s.current_term && !reply.vote_granted ==> s.after_vote_reply(reply) == (s, None::<Role>),
        reply.term < s.current_term ==> s.after_vote_reply(reply) == (s, None::<Role>),
        reply.term > s.current_term ==> s.after_vote_reply(reply).1 == Some(Role::Follower)
            && s.after_vote_reply(reply).0.role == Role::Follower
            && s.after_vote_reply(reply).0.current_term == reply.term,
        s.after_vote_reply(reply).0.role == Role::Follower && s.role == Role::Candidate ==> reply.term
            > s.current_term,
{
}

} // verus!
