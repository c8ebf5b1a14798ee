//! The executable Raft state machine: no sockets, threads or disk.

use super::{
    AppendEntries, AppendEntriesReply, EntryView, RaftLogEntry, RaftStateView, RequestVote,
    RequestVoteReply, Role,
};
use vstd::prelude::*;

verus! {

/// Election and replication state of one Raft node.
#[derive(Debug, Clone, PartialEq, Eq)]
pub struct RaftState {
    role: Role,
    current_term: u64,
    voted_for: Option<String>,
    log: Vec<RaftLogEntry>,
    commit_index: u64,
    last_applied: u64,
    votes_received: usize,
    cluster_size: usize,
}

/// The value of an optional node id.
pub open spec fn opt_string_view(o: Option<String>) -> Option<Seq<char>> {
    match o {
        Some(s) => Some(s@),
        None => None,
    }
}

impl View for RaftState {
    type V = RaftStateView;

    closed spec fn view(&self) -> RaftStateView {
        RaftStateView {
            role: self.role,
            current_term: self.current_term,
            voted_for: opt_string_view(self.voted_for),
            log: super::entries_view(self.log@),
            commit_index: self.commit_index,
            last_applied: self.last_applied,
            votes_received: self.votes_received,
            cluster_size: self.cluster_size,
        }
    }
}

impl Default for RaftState {
    fn default() -> (s: Self)
        ensures
            s@ == RaftStateView::initial(1),
            s@.wf(),
    {
        RaftState::new(1)
    }
}

impl RaftState {
    /// A follower in term 0 with an empty log, in a cluster of
    /// `cluster_size` nodes (at least one).
    pub fn new(cluster_size: usize) -> (s: Self)
        ensures
            s@ == RaftStateView::initial(cluster_size),
            s@.wf(),
    {
        let s = RaftState {
            role: Role::Follower,
            current_term: 0,
            voted_for: None,
            log: Vec::new(),
            commit_index: 0,
            last_applied: 0,
            votes_received: 0,
            cluster_size: if cluster_size < 1 { 1 } else { cluster_size },
        };
        assert(s@.log =~= Seq::<EntryView>::empty());
        s
    }

    pub fn role(&self) -> (r: Role)
        ensures
            r == self@.role,
    {
        self.role
    }

    pub fn current_term(&self) -> (r: u64)
        ensures
            r == self@.current_term,
    {
        self.current_term
    }

    pub fn voted_for(&self) -> (r: Option<&str>)
        ensures
            r is Some <==> self@.voted_for is Some,
            r matches Some(s) ==> self@.voted_for == Some(s@),
    {
        match &self.voted_for {
            Some(s) => Some(s.as_str()),
            None => None,
        }
    }

    pub fn log(&self) -> (r: &[RaftLogEntry])
        ensures
            super::entries_view(r@) == self@.log,
    {
        self.log.as_slice()
    }

    pub fn commit_index(&self) -> (r: u64)
        ensures
            r == self@.commit_index,
    {
        self.commit_index
    }

    pub fn last_applied(&self) -> (r: u64)
        ensures
            r == self@.last_applied,
    {
        self.last_applied
    }

    pub fn votes_received(&self) -> (r: usize)
        ensures
            r == self@.votes_received,
    {
        self.votes_received
    }

    pub fn last_log_index(&self) -> (r: u64)
        ensures
            r == self@.last_log_index(),
    {
        if self.log.len() == 0 {
            0
        } else {
            self.log[self.log.len() - 1].index
        }
    }

    pub fn last_log_term(&self) -> (r: u64)
        ensures
            r == self@.last_log_term(),
    {
        if self.log.len() == 0 {
            0
        } else {
            self.log[self.log.len() - 1].term
        }
    }

    /// Starts an election: a new term, a vote for `node_id`, one vote counted.
    pub fn become_candidate(&mut self, node_id: String)
        requires
            old(self)@.wf(),
            old(self)@.current_term < u64::MAX,
        ensures
            final(self)@ == old(self)@.became_candidate(node_id@),
            final(self)@.wf(),
    {
        self.role = Role::Candidate;
        self.current_term = self.current_term + 1;
        self.voted_for = Some(node_id);
        self.votes_received = 1;
    }

    pub fn become_leader(&mut self)
        requires
            old(self)@.wf(),
        ensures
            final(self)@ == old(self)@.became_leader(),
            final(self)@.wf(),
    {
        self.role = Role::Leader;
    }

    /// Appends an entry for `task_id` at the index after the last one and
    /// returns it.
    pub fn append_local_entry(&mut self, term: u64, task_id: String, payload: Vec<u8>) -> (e: RaftLogEntry)
        requires
            old(self)@.wf(),
            old(self)@.last_log_index() < u64::MAX,
        ensures
            (final(self)@, e@) == old(self)@.after_local_append(term, task_id@, payload@),
            final(self)@.wf(),
    {
        let index = self.last_log_index() + 1;
        let entry = RaftLogEntry { term, index, task_id, payload };
        let result = entry.duplicate();
        self.log.push(entry);
        assert(self@.log =~= old(self)@.log.push(result@));
        result
    }

    /// The position of the first entry carrying `index`.
    fn find_position(&self, index: u64) -> (r: Option<usize>)
        ensures
            match super::find_entry(self@.log, index) {
                Some(e) => r matches Some(i) && i < self@.log.len() && self@.log[i as int] == e,
                None => r is None,
            },
    {
        let ghost log = self@.log;
        let mut i: usize = 0;
        assert(log.skip(0) =~= log);
        while i < self.log.len()
            invariant
                log == self@.log,
                i <= log.len(),
                super::find_entry(log, index) == super::find_entry(log.skip(i as int), index),
            decreases log.len() - i,
        {
            assert(log.skip(i as int)[0] == log[i as int]);
            if self.log[i].index == index {
                return Some(i);
            }
            assert(log.skip(i as int).drop_first() =~= log.skip(i + 1));
            i = i + 1;
        }
        assert(log.skip(i as int).len() == 0);
        None
    }

    /// The term of the entry at `index`; index 0 has term 0.
    pub fn term_at(&self, index: u64) -> (r: Option<u64>)
        ensures
            r == self@.term_at(index),
    {
        if index == 0 {
            return Some(0);
        }
        match self.find_position(index) {
            Some(i) => Some(self.log[i].term),
            None => None,
        }
    }

    /// Sets the commit index to `index`, capped at the last log index.
    pub fn commit_through(&mut self, index: u64)
        requires
            old(self)@.wf(),
        ensures
            final(self)@ == old(self)@.committed_through(index),
            final(self)@.wf(),
    {
        let last = self.last_log_index();
        self.commit_index = if index < last { index } else { last };
    }

    /// Returns the committed entries not yet applied and advances
    /// `last_applied` to `commit_index`.
    pub fn drain_applied_entries(&mut self) -> (applied: Vec<RaftLogEntry>)
        requires
            old(self)@.wf(),
        ensures
            (final(self)@, super::entries_view(applied@)) == old(self)@.after_drain(),
            final(self)@.wf(),
    {
        let mut applied: Vec<RaftLogEntry> = Vec::new();
        let ghost start = self.last_applied;
        while self.last_applied < self.commit_index
            invariant
                self@ == (RaftStateView { last_applied: self.last_applied, ..old(self)@ }),
                start == old(self)@.last_applied,
                start <= self.last_applied,
                self.last_applied <= old(self)@.commit_index || self.last_applied == start,
                super::entries_view(applied@) == super::applied_between(
                    self@.log,
                    start as nat,
                    self.last_applied as nat,
                ),
            decreases self.commit_index - self.last_applied,
        {
            self.last_applied = self.last_applied + 1;
            let ghost prev = applied@;
            match self.find_position(self.last_applied) {
                Some(i) => {
                    let e = self.log[i].duplicate();
                    applied.push(e);
                    assert(super::entries_view(applied@) =~= super::entries_view(prev).push(e@));
                },
                None => {},
            }
        }
        applied
    }

    /// Handles a `RequestVote`: refuses stale terms, steps down on newer ones,
    /// and grants the vote when none was cast for another candidate this term
    /// and the candidate's log is at least as up to date.
    pub fn handle_request_vote(&mut self, request: RequestVote) -> (reply: RequestVoteReply)
        requires
            old(self)@.wf(),
        ensures
            (final(self)@, reply) == old(self)@.after_request_vote(request@),
            final(self)@.wf(),
    {
        if request.term < self.current_term {
            return RequestVoteReply { term: self.current_term, vote_granted: false };
        }
        if request.term > self.current_term {
            self.handle_higher_term(request.term);
        }
        let can_vote = match &self.voted_for {
            None => true,
            Some(v) => *v == request.candidate_id,
        };
        let up_to_date = self.is_candidate_log_up_to_date(request.last_log_index, request.last_log_term);
        let vote_granted = can_vote && up_to_date;
        if vote_granted {
            self.voted_for = Some(request.candidate_id);
        }
        RequestVoteReply { term: self.current_term, vote_granted }
    }

    /// Handles a `RequestVoteReply`: steps down on a newer term, and as a
    /// candidate counts a granted vote of its own term, becoming leader at a
    /// majority. Returns the role entered, if any.
    pub fn handle_request_vote_reply(&mut self, reply: RequestVoteReply) -> (r: Option<Role>)
        requires
            old(self)@.wf(),
        ensures
            (final(self)@, r) == old(self)@.after_vote_reply(reply),
            final(self)@.wf(),
    {
        if reply.term > self.current_term {
            self.handle_higher_term(reply.term);
            return Some(Role::Follower);
        }
        if self.role != Role::Candidate || reply.term != self.current_term || !reply.vote_granted {
            return None;
        }
        self.votes_received = self.votes_received + 1;
        if self.votes_received >= self.majority() {
            self.role = Role::Leader;
            return Some(Role::Leader);
        }
        None
    }

    /// Handles an `AppendEntries`: refuses stale terms, follows the sender,
    /// and when the log matches at `prev_log_index` replaces everything after
    /// it with the sent entries and advances the commit index.
    pub fn handle_append_entries(&mut self, request: AppendEntries) -> (reply: AppendEntriesReply)
        requires
            old(self)@.wf(),
            old(self)@.log_matches(request.prev_log_index, request.prev_log_term) ==> request.prev_log_index
                + request.entries@.len() <= u64::MAX,
        ensures
            (final(self)@, reply) == old(self)@.after_append_entries(request@),
            final(self)@.wf(),
    {
        if request.term < self.current_term {
            return AppendEntriesReply {
                term: self.current_term,
                success: false,
                match_index: self.last_log_index(),
            };
        }
        if request.term > self.current_term || self.role != Role::Follower {
            self.handle_higher_term(request.term);
        }
        if !self.log_matches(request.prev_log_index, request.prev_log_term) {
            return AppendEntriesReply {
                term: self.current_term,
                success: false,
                match_index: self.last_log_index(),
            };
        }
        let ghost req = request@;
        let match_index = request.prev_log_index + request.entries.len() as u64;
        let leader_commit = request.leader_commit;
        self.append_entries_after(request.prev_log_index, request.entries);
        if leader_commit > self.commit_index {
            let last = self.last_log_index();
            self.commit_index = if leader_commit < last { leader_commit } else { last };
        }
        AppendEntriesReply { term: self.current_term, success: true, match_index }
    }

    /// Steps down on seeing `term`: the term rises to it if higher, and the
    /// node becomes a follower with no vote cast and no votes counted.
    pub fn handle_higher_term(&mut self, term: u64)
        requires
            old(self)@.wf(),
        ensures
            final(self)@ == old(self)@.stepped_down(term),
            final(self)@.wf(),
    {
        if term > self.current_term {
            self.current_term = term;
        }
        self.role = Role::Follower;
        self.voted_for = None;
        self.votes_received = 0;
    }

    /// Replaces the log with `entries`, as read back from the durable Raft
    /// log on startup; terms, votes and indexes stay.
    pub fn restore_log(&mut self, entries: Vec<RaftLogEntry>)
        requires
            old(self)@.wf(),
        ensures
            final(self)@ == (RaftStateView { log: super::entries_view(entries@), ..old(self)@ }),
            final(self)@.wf(),
    {
        self.log = entries;
    }

    pub fn majority(&self) -> (r: usize)
        ensures
            r == self@.majority(),
    {
        (self.cluster_size / 2) + 1
    }

    fn is_candidate_log_up_to_date(&self, last_log_index: u64, last_log_term: u64) -> (r: bool)
        ensures
            r == self@.candidate_log_up_to_date(last_log_index, last_log_term),
    {
        let my_term = self.last_log_term();
        last_log_term > my_term || (last_log_term == my_term && last_log_index >= self.last_log_index())
    }

    pub fn log_matches(&self, prev_log_index: u64, prev_log_term: u64) -> (r: bool)
        ensures
            r == self@.log_matches(prev_log_index, prev_log_term),
    {
        if prev_log_index == 0 {
            return prev_log_term == 0;
        }
        match self.find_position(prev_log_index) {
            Some(i) => self.log[i].term == prev_log_term,
            None => false,
        }
    }

    fn append_entries_after(&mut self, prev_log_index: u64, entries: Vec<RaftLogEntry>)
        ensures
            final(self)@ == (RaftStateView {
                log: old(self)@.log_after_append(prev_log_index, super::entries_view(entries@)),
                ..old(self)@
            }),
    {
        if entries.len() == 0 {
            assert(super::entries_view(entries@).len() == 0);
            return;
        }
        let ghost log = self@.log;
        let ghost pred = super::at_or_before(prev_log_index);
        let mut kept: Vec<RaftLogEntry> = Vec::new();
        let mut i: usize = 0;
        while i < self.log.len()
            invariant
                log == self@.log,
                pred == super::at_or_before(prev_log_index),
                i <= log.len(),
                super::entries_view(kept@) == log.take(i as int).filter(pred),
            decreases log.len() - i,
        {
            let ghost before = kept@;
            proof {
                reveal(Seq::filter);
                assert(log.take(i + 1).drop_last() =~= log.take(i as int));
                assert(log.take(i + 1).last() == log[i as int]);
                assert(log[i as int] == self.log@[i as int]@);
                assert(log[i as int].index == self.log@[i as int].index);
            }
            if self.log[i].index <= prev_log_index {
                let e = self.log[i].duplicate();
                kept.push(e);
                assert(pred(log[i as int]));
                assert(super::entries_view(kept@) =~= super::entries_view(before).push(log[i as int]));
            } else {
                assert(!pred(log[i as int]));
            }
            i = i + 1;
        }
        assert(log.take(i as int) =~= log);
        let ghost kept_view = kept@;
        let mut entries = entries;
        let ghost new_view = entries@;
        kept.append(&mut entries);
        assert(super::entries_view(kept@) =~= super::entries_view(kept_view) + super::entries_view(new_view));
        self.log = kept;
    }
}

} // verus!
