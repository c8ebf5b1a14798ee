//! Raft consensus: the pure election and replication state machine, and the
//! payload codecs of its RPCs.

use vstd::prelude::*;

pub mod laws;
pub mod wire;
pub mod runtime;
mod state;

pub use state::RaftState;

verus! {

#[derive(Debug, Clone, Copy, PartialEq, Eq, Structural)]
pub enum Role {
    Follower,
    Candidate,
    Leader,
}

/// One entry of the replicated log.
#[derive(Debug, Clone, PartialEq, Eq)]
pub struct RaftLogEntry {
    pub term: u64,
    pub index: u64,
    pub task_id: String,
    pub payload: Vec<u8>,
}

/// The mathematical value of a log entry.
pub ghost struct EntryView {
    pub term: u64,
    pub index: u64,
    pub task_id: Seq<char>,
    pub payload: Seq<u8>,
}

impl View for RaftLogEntry {
    type V = EntryView;

    open spec fn view(&self) -> EntryView {
        EntryView { term: self.term, index: self.index, task_id: self.task_id@, payload: self.payload@ }
    }
}

/// The values of a sequence of log entries.
pub open spec fn entries_view(v: Seq<RaftLogEntry>) -> Seq<EntryView> {
    v.map_values(|e: RaftLogEntry| e@)
}

impl RaftLogEntry {
    /// A copy of this entry.
    pub fn duplicate(&self) -> (r: RaftLogEntry)
        ensures
            r@ == self@,
    {
        let payload = self.payload.clone();
        assert(payload@ =~= self.payload@);
        RaftLogEntry { term: self.term, index: self.index, task_id: self.task_id.clone(), payload }
    }
}

#[derive(Debug, Clone, PartialEq, Eq)]
pub enum RaftMessage {
    RequestVote(RequestVote),
    RequestVoteReply(RequestVoteReply),
    AppendEntries(AppendEntries),
    AppendEntriesReply(AppendEntriesReply),
}

#[derive(Debug, Clone, PartialEq, Eq)]
pub struct RequestVote {
    pub term: u64,
    pub candidate_id: String,
    pub last_log_index: u64,
    pub last_log_term: u64,
}

pub ghost struct RequestVoteView {
    pub term: u64,
    pub candidate_id: Seq<char>,
    pub last_log_index: u64,
    pub last_log_term: u64,
}

impl View for RequestVote {
    type V = RequestVoteView;

    open spec fn view(&self) -> RequestVoteView {
        RequestVoteView {
            term: self.term,
            candidate_id: self.candidate_id@,
            last_log_index: self.last_log_index,
            last_log_term: self.last_log_term,
        }
    }
}

#[derive(Debug, Clone, Copy, PartialEq, Eq, Structural)]
pub struct RequestVoteReply {
    pub term: u64,
    pub vote_granted: bool,
}

#[derive(Debug, Clone, PartialEq, Eq)]
pub struct AppendEntries {
    pub term: u64,
    pub leader_id: String,
    pub prev_log_index: u64,
    pub prev_log_term: u64,
    pub entries: Vec<RaftLogEntry>,
    pub leader_commit: u64,
}

pub ghost struct AppendEntriesView {
    pub term: u64,
    pub leader_id: Seq<char>,
    pub prev_log_index: u64,
    pub prev_log_term: u64,
    pub entries: Seq<EntryView>,
    pub leader_commit: u64,
}

impl View for AppendEntries {
    type V = AppendEntriesView;

    open spec fn view(&self) -> AppendEntriesView {
        AppendEntriesView {
            term: self.term,
            leader_id: self.leader_id@,
            prev_log_index: self.prev_log_index,
            prev_log_term: self.prev_log_term,
            entries: entries_view(self.entries@),
            leader_commit: self.leader_commit,
        }
    }
}

#[derive(Debug, Clone, Copy, PartialEq, Eq, Structural)]
pub struct AppendEntriesReply {
    pub term: u64,
    pub success: bool,
    pub match_index: u64,
}

/// The mathematical value of a Raft message.
pub ghost enum RaftMessageView {
    RequestVote(RequestVoteView),
    RequestVoteReply(RequestVoteReply),
    AppendEntries(AppendEntriesView),
    AppendEntriesReply(AppendEntriesReply),
}

impl View for RaftMessage {
    type V = RaftMessageView;

    open spec fn view(&self) -> RaftMessageView {
        match self {
            RaftMessage::RequestVote(m) => RaftMessageView::RequestVote(m@),
            RaftMessage::RequestVoteReply(m) => RaftMessageView::RequestVoteReply(*m),
            RaftMessage::AppendEntries(m) => RaftMessageView::AppendEntries(m@),
            RaftMessage::AppendEntriesReply(m) => RaftMessageView::AppendEntriesReply(*m),
        }
    }
}

#[derive(Debug, Clone, Copy, PartialEq, Eq, Structural)]
pub enum RaftCodecError {
    InvalidPayload,
    PayloadTooLarge,
}

impl RaftCodecError {
    /// A short description of the error.
    pub fn message(&self) -> (m: &'static str)
        ensures
            m@ == (match *self {
                RaftCodecError::InvalidPayload => "invalid raft payload"@,
                RaftCodecError::PayloadTooLarge => "raft payload too large"@,
            }),
    {
        match self {
            RaftCodecError::InvalidPayload => "invalid raft payload",
            RaftCodecError::PayloadTooLarge => "raft payload too large",
        }
    }
}

/// The first entry of `log` carrying `index`, if any.
pub open spec fn find_entry(log: Seq<EntryView>, index: u64) -> Option<EntryView>
    decreases log.len(),
{
    if log.len() == 0 {
        None
    } else if log[0].index == index {
        Some(log[0])
    } else {
        find_entry(log.drop_first(), index)
    }
}

/// The entries, in index order, that become applied when `last_applied`
/// advances from `lo` to `hi`: for each index in `lo+1..=hi`, the first log
/// entry carrying it, where there is one.
pub open spec fn applied_between(log: Seq<EntryView>, lo: nat, hi: nat) -> Seq<EntryView>
    decreases hi,
{
    if hi <= lo {
        Seq::empty()
    } else {
        let before = applied_between(log, lo, (hi - 1) as nat);
        match find_entry(log, hi as u64) {
            Some(e) => before.push(e),
            None => before,
        }
    }
}

/// Whether an entry's index is at most `index`.
pub open spec fn at_or_before(index: u64) -> spec_fn(EntryView) -> bool {
    |e: EntryView| e.index <= index
}

/// The mathematical value of a node's Raft state.
pub ghost struct RaftStateView {
    pub role: Role,
    pub current_term: u64,
    pub voted_for: Option<Seq<char>>,
    pub log: Seq<EntryView>,
    pub commit_index: u64,
    pub last_applied: u64,
    pub votes_received: usize,
    pub cluster_size: usize,
}

impl RaftStateView {
    /// The state of a fresh node in a cluster of `cluster_size` nodes
    /// (counted as at least one).
    pub open spec fn initial(cluster_size: usize) -> Self {
        RaftStateView {
            role: Role::Follower,
            current_term: 0,
            voted_for: None,
            log: Seq::empty(),
            commit_index: 0,
            last_applied: 0,
            votes_received: 0,
            cluster_size: if cluster_size < 1 { 1 } else { cluster_size },
        }
    }

    /// Votes needed to win an election.
    pub open spec fn majority(self) -> nat {
        (self.cluster_size / 2 + 1) as nat
    }

    /// The cluster has at least one node, and a candidate never holds more
    /// votes than a majority.
    pub open spec fn wf(self) -> bool {
        &&& self.cluster_size >= 1
        &&& self.role == Role::Candidate ==> self.votes_received <= self.majority()
    }

    pub open spec fn last_log_index(self) -> u64 {
        if self.log.len() == 0 { 0 } else { self.log.last().index }
    }

    pub open spec fn last_log_term(self) -> u64 {
        if self.log.len() == 0 { 0 } else { self.log.last().term }
    }

    /// The term of the entry at `index`; index 0 has term 0.
    pub open spec fn term_at(self, index: u64) -> Option<u64> {
        if index == 0 {
            Some(0)
        } else {
            match find_entry(self.log, index) {
                Some(e) => Some(e.term),
                None => None,
            }
        }
    }

    /// Stepping down on seeing `term`: the term rises to it if higher, and the
    /// node becomes a follower with no vote cast and no votes counted.
    pub open spec fn stepped_down(self, term: u64) -> Self {
        RaftStateView {
            current_term: if term > self.current_term { term } else { self.current_term },
            role: Role::Follower,
            voted_for: None,
            votes_received: 0,
            ..self
        }
    }

    pub open spec fn became_candidate(self, node_id: Seq<char>) -> Self {
        RaftStateView {
            role: Role::Candidate,
            current_term: (self.current_term + 1) as u64,
            voted_for: Some(node_id),
            votes_received: 1,
            ..self
        }
    }

    pub open spec fn became_leader(self) -> Self {
        RaftStateView { role: Role::Leader, ..self }
    }

    /// A candidate's log is at least as up to date as this node's.
    pub open spec fn candidate_log_up_to_date(self, last_log_index: u64, last_log_term: u64) -> bool {
        last_log_term > self.last_log_term() || (last_log_term == self.last_log_term()
            && last_log_index >= self.last_log_index())
    }

    /// This node's log holds an entry at `prev_log_index` with `prev_log_term`
    /// (index 0 matches term 0 only).
    pub open spec fn log_matches(self, prev_log_index: u64, prev_log_term: u64) -> bool {
        if prev_log_index == 0 {
            prev_log_term == 0
        } else {
            match find_entry(self.log, prev_log_index) {
                Some(e) => e.term == prev_log_term,
                None => false,
            }
        }
    }

    /// State and reply after a `RequestVote`.
    pub open spec fn after_request_vote(self, req: RequestVoteView) -> (Self, RequestVoteReply) {
        if req.term < self.current_term {
            (self, RequestVoteReply { term: self.current_term, vote_granted: false })
        } else {
            let s = if req.term > self.current_term { self.stepped_down(req.term) } else { self };
            let can_vote = s.voted_for is None || s.voted_for == Some(req.candidate_id);
            let granted = can_vote && s.candidate_log_up_to_date(req.last_log_index, req.last_log_term);
            let s2 = if granted { RaftStateView { voted_for: Some(req.candidate_id), ..s } } else { s };
            (s2, RequestVoteReply { term: s2.current_term, vote_granted: granted })
        }
    }

    /// State after a `RequestVoteReply`, and the role entered, if any.
    pub open spec fn after_vote_reply(self, reply: RequestVoteReply) -> (Self, Option<Role>) {
        if reply.term > self.current_term {
            (self.stepped_down(reply.term), Some(Role::Follower))
        } else if self.role != Role::Candidate || reply.term != self.current_term || !reply.vote_granted {
            (self, None)
        } else {
            let counted = RaftStateView { votes_received: (self.votes_received + 1) as usize, ..self };
            if counted.votes_received >= self.majority() {
                (counted.became_leader(), Some(Role::Leader))
            } else {
                (counted, None)
            }
        }
    }

    /// The log after accepting `entries` behind `prev_log_index`: entries past
    /// `prev_log_index` are dropped and the new ones appended; a heartbeat
    /// leaves the log as it is.
    pub open spec fn log_after_append(self, prev_log_index: u64, entries: Seq<EntryView>) -> Seq<EntryView> {
        if entries.len() == 0 {
            self.log
        } else {
            self.log.filter(at_or_before(prev_log_index)) + entries
        }
    }

    /// State and reply after an `AppendEntries`.
    pub open spec fn after_append_entries(self, req: AppendEntriesView) -> (Self, AppendEntriesReply) {
        if req.term < self.current_term {
            (self, AppendEntriesReply { term: self.current_term, success: false, match_index: self.last_log_index() })
        } else {
            let s = if req.term > self.current_term || self.role != Role::Follower {
                self.stepped_down(req.term)
            } else {
                self
            };
            if !s.log_matches(req.prev_log_index, req.prev_log_term) {
                (s, AppendEntriesReply { term: s.current_term, success: false, match_index: s.last_log_index() })
            } else {
                let s2 = RaftStateView { log: s.log_after_append(req.prev_log_index, req.entries), ..s };
                let s3 = if req.leader_commit > s2.commit_index {
                    RaftStateView {
                        commit_index: if req.leader_commit < s2.last_log_index() { req.leader_commit } else { s2.last_log_index() },
                        ..s2
                    }
                } else {
                    s2
                };
                (s3, AppendEntriesReply {
                    term: s3.current_term,
                    success: true,
                    match_index: (req.prev_log_index + req.entries.len()) as u64,
                })
            }
        }
    }

    pub open spec fn committed_through(self, index: u64) -> Self {
        RaftStateView {
            commit_index: if index < self.last_log_index() { index } else { self.last_log_index() },
            ..self
        }
    }

    /// State after draining, and the entries handed out: those between
    /// `last_applied` and `commit_index`.
    pub open spec fn after_drain(self) -> (Self, Seq<EntryView>) {
        (
            RaftStateView {
                last_applied: if self.last_applied < self.commit_index { self.commit_index } else { self.last_applied },
                ..self
            },
            applied_between(self.log, self.last_applied as nat, self.commit_index as nat),
        )
    }

    /// State after appending a local entry, and that entry.
    pub open spec fn after_local_append(self, term: u64, task_id: Seq<char>, payload: Seq<u8>) -> (Self, EntryView) {
        let e = EntryView { term, index: (self.last_log_index() + 1) as u64, task_id, payload };
        (RaftStateView { log: self.log.push(e), ..self }, e)
    }
}

} // verus!
