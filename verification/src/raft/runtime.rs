//! The decisions of a Raft node's event loop: election timers, heartbeats,
//! vote counting, replication bookkeeping and the answers to incoming RPC
//! frames. The caller owns the sockets, the clock and the WAL file: it
//! performs what each step asks for and reports what came back.

use super::wire::{parse_append_entries_family, parse_request_vote_family};
use super::{
    AppendEntries, AppendEntriesReply, AppendEntriesView, EntryView, RaftCodecError, RaftLogEntry,
    RaftMessage, RaftMessageView, RaftState, RaftStateView, RequestVote, RequestVoteReply,
    RequestVoteView, Role,
};
use crate::protocol::{frame_bytes, Frame, FrameView, Opcode, ProtocolError};
use crate::rng::{fnv, fnv_fold, xorshift, xorshift_next, FNV_OFFSET};
use crate::text::{decimal, push_char, push_decimal, push_str};
use vstd::prelude::*;

verus! {

/// A member of the Raft cluster other than this node: its id and the
/// address its RPC listener is reached at.
#[derive(Debug, Clone, PartialEq, Eq)]
pub struct RaftPeer {
    pub id: String,
    pub addr: String,
}

/// The value of a peer.
pub ghost struct PeerView {
    pub id: Seq<char>,
    pub addr: Seq<char>,
}

impl View for RaftPeer {
    type V = PeerView;

    open spec fn view(&self) -> PeerView {
        PeerView { id: self.id@, addr: self.addr@ }
    }
}

/// The values of a sequence of peers.
pub open spec fn peers_view(v: Seq<RaftPeer>) -> Seq<PeerView> {
    v.map_values(|p: RaftPeer| p@)
}

/// Timer settings, in milliseconds.
#[derive(Debug, Clone, Copy, PartialEq, Eq, Structural)]
pub struct RaftRuntimeConfig {
    /// Shortest wait without a leader before starting an election.
    pub election_timeout_min_ms: u64,
    /// Most random extra wait added to the election timeout.
    pub election_timeout_spread_ms: u64,
    /// Interval between a leader's heartbeats.
    pub heartbeat_interval_ms: u64,
}

impl Default for RaftRuntimeConfig {
    /// 150 ms election timeout with up to 150 ms of jitter, 50 ms heartbeats.
    fn default() -> (c: Self)
        ensures
            c == (RaftRuntimeConfig {
                election_timeout_min_ms: 150,
                election_timeout_spread_ms: 150,
                heartbeat_interval_ms: 50,
            }),
    {
        RaftRuntimeConfig {
            election_timeout_min_ms: 150,
            election_timeout_spread_ms: 150,
            heartbeat_interval_ms: 50,
        }
    }
}

/// `a + b`, or `u64::MAX` when that overflows.
pub open spec fn sat_add(a: u64, b: u64) -> u64 {
    if a + b > u64::MAX { u64::MAX } else { (a + b) as u64 }
}

/// `a - b`, or 0 when that is negative.
pub open spec fn sat_sub(a: u64, b: u64) -> u64 {
    if a < b { 0 } else { (a - b) as u64 }
}

/// The generator seed of a node: FNV-1a of its id, never 0.
pub open spec fn node_seed(node_id: Seq<char>) -> u64 {
    let h = fnv(FNV_OFFSET, vstd::utf8::encode_utf8(node_id));
    if h < 1 { 1 } else { h }
}

/// The id given to the task of the entry at `index`: `<node id>-<index>`.
pub open spec fn task_id_for(node_id: Seq<char>, index: nat) -> Seq<char> {
    node_id + seq!['-'] + decimal(index)
}

/// The value of the runtime's state.
pub ghost struct RuntimeView {
    pub node_id: Seq<char>,
    pub peers: Seq<PeerView>,
    pub state: RaftStateView,
    pub config: RaftRuntimeConfig,
    /// Time after which a follower or candidate starts an election.
    pub election_deadline: u64,
    /// Time of the last heartbeat broadcast.
    pub last_heartbeat_at: u64,
    pub rng: u64,
    /// Whether this term's leadership has been announced.
    pub leader_logged: bool,
    /// Per peer, in peer order: the next log index to send.
    pub next_index: Seq<u64>,
    /// Per peer, in peer order: the highest index known replicated there.
    pub match_index: Seq<u64>,
}

/// What the caller is asked to do after a clock tick.
pub enum TickAction {
    /// Nothing is due.
    Idle,
    /// Send this heartbeat to every peer and report each reply with
    /// `on_heartbeat_reply`.
    Heartbeat(AppendEntries),
    /// An election started: send this request to every peer and report each
    /// reply with `on_vote_reply`.
    Election(RequestVote),
    /// A node without peers won its election at once; leadership is to be
    /// announced.
    ElectedAlone,
}

pub ghost enum TickActionView {
    Idle,
    Heartbeat(AppendEntriesView),
    Election(RequestVoteView),
    ElectedAlone,
}

impl View for TickAction {
    type V = TickActionView;

    open spec fn view(&self) -> TickActionView {
        match self {
            TickAction::Idle => TickActionView::Idle,
            TickAction::Heartbeat(m) => TickActionView::Heartbeat(m@),
            TickAction::Election(m) => TickActionView::Election(m@),
            TickAction::ElectedAlone => TickActionView::ElectedAlone,
        }
    }
}

impl RuntimeView {
    /// Peer bookkeeping matches the peer list, the cluster counts this node
    /// and its peers, and the jitter bound can be incremented.
    pub open spec fn wf(self) -> bool {
        &&& self.state.wf()
        &&& self.state.cluster_size == self.peers.len() + 1
        &&& self.next_index.len() == self.peers.len()
        &&& self.match_index.len() == self.peers.len()
        &&& self.config.election_timeout_spread_ms < u64::MAX
    }

    /// A fresh runtime at time `now`.
    pub open spec fn initial(
        node_id: Seq<char>,
        peers: Seq<PeerView>,
        config: RaftRuntimeConfig,
        now: u64,
    ) -> Self {
        RuntimeView {
            node_id,
            peers,
            state: RaftStateView::initial((peers.len() + 1) as usize),
            config,
            election_deadline: now,
            last_heartbeat_at: now,
            rng: node_seed(node_id),
            leader_logged: false,
            next_index: Seq::new(peers.len(), |i: int| 1u64),
            match_index: Seq::new(peers.len(), |i: int| 0u64),
        }.with_deadline_reset(now)
    }

    /// A new election deadline drawn at `now`: the minimum timeout plus a
    /// jitter in `0..=spread` taken from the generator (no draw when the
    /// spread is 0).
    pub open spec fn with_deadline_reset(self, now: u64) -> Self {
        let min = self.config.election_timeout_min_ms;
        let spread = self.config.election_timeout_spread_ms;
        if spread == 0 {
            RuntimeView { election_deadline: sat_add(now, min), ..self }
        } else {
            let r = xorshift(self.rng);
            RuntimeView { election_deadline: sat_add(sat_add(now, min), r % (spread + 1) as u64), rng: r, ..self }
        }
    }

    /// The heartbeat a leader sends: no entries, its last log position and
    /// commit index.
    pub open spec fn heartbeat(self) -> AppendEntriesView {
        AppendEntriesView {
            term: self.state.current_term,
            leader_id: self.node_id,
            prev_log_index: self.state.last_log_index(),
            prev_log_term: self.state.last_log_term(),
            entries: Seq::empty(),
            leader_commit: self.state.commit_index,
        }
    }

    /// The vote request of a candidate.
    pub open spec fn vote_request(self) -> RequestVoteView {
        RequestVoteView {
            term: self.state.current_term,
            candidate_id: self.node_id,
            last_log_index: self.state.last_log_index(),
            last_log_term: self.state.last_log_term(),
        }
    }

    /// Becoming a candidate at `now`, and with no peers also the leader.
    pub open spec fn after_election_start(self, now: u64) -> (Self, TickActionView) {
        let c = RuntimeView {
            state: self.state.became_candidate(self.node_id),
            leader_logged: false,
            ..self
        }.with_deadline_reset(now);
        if self.peers.len() == 0 {
            (RuntimeView { state: c.state.became_leader(), leader_logged: true, ..c }, TickActionView::ElectedAlone)
        } else {
            (c, TickActionView::Election(c.vote_request()))
        }
    }

    /// A clock tick at `now`: a leader sends a heartbeat once the interval
    /// since the last one has passed; a follower or candidate starts an
    /// election once its deadline has come.
    pub open spec fn after_tick(self, now: u64) -> (Self, TickActionView) {
        if self.state.role == Role::Leader {
            if sat_sub(now, self.last_heartbeat_at) < self.config.heartbeat_interval_ms {
                (self, TickActionView::Idle)
            } else {
                let s = RuntimeView { last_heartbeat_at: now, ..self };
                (s, TickActionView::Heartbeat(s.heartbeat()))
            }
        } else if now >= self.election_deadline {
            self.after_election_start(now)
        } else {
            (self, TickActionView::Idle)
        }
    }

    /// Stepping down on a reply from a higher term: follower in that term,
    /// a new deadline drawn at `now`, leadership no longer announced.
    pub open spec fn after_higher_term(self, term: u64, now: u64) -> Self {
        RuntimeView { state: self.state.stepped_down(term), leader_logged: false, ..self }.with_deadline_reset(
            now,
        )
    }

    /// A vote reply during an election at `now`: counted as `RaftState`
    /// counts it; on reaching a majority the node announces its leadership
    /// unless it already has, and owes its peers a heartbeat.
    pub open spec fn after_vote_reply(self, reply: RequestVoteReply, now: u64) -> (Self, Option<(bool, AppendEntriesView)>) {
        let (st, role) = self.state.after_vote_reply(reply);
        let s = RuntimeView { state: st, ..self };
        if role == Some(Role::Leader) {
            let l = RuntimeView { leader_logged: true, last_heartbeat_at: now, ..s };
            (l, Some((!self.leader_logged, l.heartbeat())))
        } else {
            (s, None)
        }
    }

    /// A heartbeat reply at `now`: a higher term makes the node step down,
    /// and the broadcast stops.
    pub open spec fn after_heartbeat_reply(self, reply: AppendEntriesReply, now: u64) -> (Self, bool) {
        if reply.term > self.state.current_term {
            (self.after_higher_term(reply.term, now), true)
        } else {
            (self, false)
        }
    }
}

/// The Raft side of a node: its state machine, its peers, timers and
/// per-peer replication progress.
pub struct RaftRuntime {
    node_id: String,
    peers: Vec<RaftPeer>,
    state: RaftState,
    config: RaftRuntimeConfig,
    election_deadline: u64,
    last_heartbeat_at: u64,
    rng_state: u64,
    leader_logged: bool,
    next_index: Vec<u64>,
    match_index: Vec<u64>,
}

impl View for RaftRuntime {
    type V = RuntimeView;

    closed spec fn view(&self) -> RuntimeView {
        RuntimeView {
            node_id: self.node_id@,
            peers: peers_view(self.peers@),
            state: self.state@,
            config: self.config,
            election_deadline: self.election_deadline,
            last_heartbeat_at: self.last_heartbeat_at,
            rng: self.rng_state,
            leader_logged: self.leader_logged,
            next_index: self.next_index@,
            match_index: self.match_index@,
        }
    }
}

fn node_seed_of(node_id: &str) -> (r: u64)
    ensures
        r == node_seed(node_id@),
{
    let bytes = node_id.as_bytes();
    let h = fnv_fold(FNV_OFFSET, bytes, Ghost(Seq::empty()));
    assert(bytes@ + Seq::<u8>::empty() =~= bytes@);
    if h < 1 { 1 } else { h }
}

fn sat_add_exec(a: u64, b: u64) -> (r: u64)
    ensures
        r == sat_add(a, b),
{
    if a > u64::MAX - b { u64::MAX } else { a + b }
}

impl RaftRuntime {
    /// A follower in term 0 with default timers, its first election
    /// deadline drawn at `now`.
    pub fn new(node_id: String, peers: Vec<RaftPeer>, now: u64) -> (r: Self)
        requires
            peers@.len() < usize::MAX,
        ensures
            r@ == RuntimeView::initial(
                node_id@,
                peers_view(peers@),
                RaftRuntimeConfig { election_timeout_min_ms: 150, election_timeout_spread_ms: 150, heartbeat_interval_ms: 50 },
                now,
            ),
            r@.wf(),
    {
        RaftRuntime::new_with_config(node_id, peers, RaftRuntimeConfig::default(), now)
    }

    /// A follower in term 0 with the given timers, its first election
    /// deadline drawn at `now`.
    pub fn new_with_config(node_id: String, peers: Vec<RaftPeer>, config: RaftRuntimeConfig, now: u64) -> (r: Self)
        requires
            peers@.len() < usize::MAX,
            config.election_timeout_spread_ms < u64::MAX,
        ensures
            r@ == RuntimeView::initial(node_id@, peers_view(peers@), config, now),
            r@.wf(),
    {
        let rng_state = node_seed_of(node_id.as_str());
        let n = peers.len();
        let mut next_index: Vec<u64> = Vec::new();
        let mut match_index: Vec<u64> = Vec::new();
        let mut i: usize = 0;
        while i < n
            invariant
                i <= n,
                next_index@ == Seq::new(i as nat, |j: int| 1u64),
                match_index@ == Seq::new(i as nat, |j: int| 0u64),
            decreases n - i,
        {
            next_index.push(1);
            match_index.push(0);
            i = i + 1;
            assert(next_index@ =~= Seq::new(i as nat, |j: int| 1u64));
            assert(match_index@ =~= Seq::new(i as nat, |j: int| 0u64));
        }
        let mut runtime = RaftRuntime {
            state: RaftState::new(n + 1),
            node_id,
            peers,
            config,
            election_deadline: now,
            last_heartbeat_at: now,
            rng_state,
            leader_logged: false,
            next_index,
            match_index,
        };
        runtime.reset_election_deadline(now);
        runtime
    }

    pub fn role(&self) -> (r: Role)
        ensures
            r == self@.state.role,
    {
        self.state.role()
    }

    pub fn current_term(&self) -> (r: u64)
        ensures
            r == self@.state.current_term,
    {
        self.state.current_term()
    }

    pub fn commit_index(&self) -> (r: u64)
        ensures
            r == self@.state.commit_index,
    {
        self.state.commit_index()
    }

    pub fn last_log_index(&self) -> (r: u64)
        ensures
            r == self@.state.last_log_index(),
    {
        self.state.last_log_index()
    }

    /// The node's own id.
    pub fn node_id(&self) -> (r: &str)
        ensures
            r@ == self@.node_id,
    {
        self.node_id.as_str()
    }

    /// The peers, in the order replies are reported by index.
    pub fn peers(&self) -> (r: &[RaftPeer])
        ensures
            peers_view(r@) == self@.peers,
    {
        self.peers.as_slice()
    }

    /// The Raft state machine.
    pub fn state(&self) -> (r: &RaftState)
        ensures
            r@ == self@.state,
    {
        &self.state
    }

    /// Replaces the log with `entries`, as read back from the durable Raft
    /// log on startup; nothing else changes.
    pub fn restore_log(&mut self, entries: Vec<RaftLogEntry>)
        requires
            old(self)@.wf(),
        ensures
            final(self)@ == (RuntimeView {
                state: RaftStateView { log: super::entries_view(entries@), ..old(self)@.state },
                ..old(self)@
            }),
            final(self)@.wf(),
    {
        self.state.restore_log(entries);
    }

    /// When a follower or candidate next starts an election.
    pub fn election_deadline(&self) -> (r: u64)
        ensures
            r == self@.election_deadline,
    {
        self.election_deadline
    }

    fn reset_election_deadline(&mut self, now: u64)
        requires
            old(self)@.config.election_timeout_spread_ms < u64::MAX,
        ensures
            final(self)@ == old(self)@.with_deadline_reset(now),
    {
        let min = self.config.election_timeout_min_ms;
        let spread = self.config.election_timeout_spread_ms;
        if spread == 0 {
            self.election_deadline = sat_add_exec(now, min);
        } else {
            self.rng_state = xorshift_next(self.rng_state);
            let jitter = self.rng_state % (spread + 1);
            self.election_deadline = sat_add_exec(sat_add_exec(now, min), jitter);
        }
    }

    /// The heartbeat this node would send now.
    pub fn heartbeat(&self) -> (m: AppendEntries)
        ensures
            m@ == self@.heartbeat(),
    {
        let m = AppendEntries {
            term: self.state.current_term(),
            leader_id: self.node_id.clone(),
            prev_log_index: self.state.last_log_index(),
            prev_log_term: self.state.last_log_term(),
            entries: Vec::new(),
            leader_commit: self.state.commit_index(),
        };
        assert(super::entries_view(m.entries@) =~= Seq::<EntryView>::empty());
        m
    }

    /// Advances the timers to `now` and says what is due. Starting an
    /// election needs a term below `u64::MAX` to advance to.
    pub fn tick(&mut self, now: u64) -> (action: TickAction)
        requires
            old(self)@.wf(),
            old(self)@.state.role != Role::Leader && now >= old(self)@.election_deadline
                ==> old(self)@.state.current_term < u64::MAX,
        ensures
            (final(self)@, action@) == old(self)@.after_tick(now),
            final(self)@.wf(),
    {
        if self.state.role() == Role::Leader {
            let since = if now < self.last_heartbeat_at { 0 } else { now - self.last_heartbeat_at };
            if since < self.config.heartbeat_interval_ms {
                return TickAction::Idle;
            }
            self.last_heartbeat_at = now;
            TickAction::Heartbeat(self.heartbeat())
        } else if now >= self.election_deadline {
            self.start_election(now)
        } else {
            TickAction::Idle
        }
    }

    fn start_election(&mut self, now: u64) -> (action: TickAction)
        requires
            old(self)@.wf(),
            old(self)@.state.current_term < u64::MAX,
        ensures
            (final(self)@, action@) == old(self)@.after_election_start(now),
            final(self)@.wf(),
    {
        self.state.become_candidate(self.node_id.clone());
        self.leader_logged = false;
        self.reset_election_deadline(now);
        if self.peers.len() == 0 {
            self.state.become_leader();
            self.leader_logged = true;
            return TickAction::ElectedAlone;
        }
        TickAction::Election(RequestVote {
            term: self.state.current_term(),
            candidate_id: self.node_id.clone(),
            last_log_index: self.state.last_log_index(),
            last_log_term: self.state.last_log_term(),
        })
    }

    /// Counts a peer's vote reply at `now`. On winning, returns whether the
    /// leadership is to be announced and the heartbeat to broadcast; the
    /// caller then stops asking for votes.
    pub fn on_vote_reply(&mut self, reply: RequestVoteReply, now: u64) -> (r: Option<(bool, AppendEntries)>)
        requires
            old(self)@.wf(),
        ensures
            (final(self)@, match r {
                Some((announce, m)) => Some((announce, m@)),
                None => None,
            }) == old(self)@.after_vote_reply(reply, now),
            final(self)@.wf(),
    {
        let announce = !self.leader_logged;
        if self.state.handle_request_vote_reply(reply) == Some(Role::Leader) {
            self.leader_logged = true;
            self.last_heartbeat_at = now;
            Some((announce, self.heartbeat()))
        } else {
            None
        }
    }

    /// Takes a peer's heartbeat reply at `now`; `true` when it carried a
    /// higher term, the node stepped down and the broadcast is to stop.
    pub fn on_heartbeat_reply(&mut self, reply: AppendEntriesReply, now: u64) -> (stop: bool)
        requires
            old(self)@.wf(),
        ensures
            (final(self)@, stop) == old(self)@.after_heartbeat_reply(reply, now),
            final(self)@.wf(),
    {
        if reply.term > self.state.current_term() {
            self.step_down(reply.term, now);
            true
        } else {
            false
        }
    }

    fn step_down(&mut self, term: u64, now: u64)
        requires
            old(self)@.wf(),
        ensures
            final(self)@ == old(self)@.after_higher_term(term, now),
            final(self)@.wf(),
    {
        self.state.handle_higher_term(term);
        self.leader_logged = false;
        self.reset_election_deadline(now);
    }
}

/// Why an incoming Raft frame was not answered.
#[derive(Debug, Clone, PartialEq, Eq, Structural)]
pub enum RaftRuntimeError {
    /// The payload is not a message of the opcode's family.
    Codec(RaftCodecError),
    /// A reply arrived where a request was expected.
    UnexpectedReply,
    /// The opcode carries no Raft RPC.
    UnsupportedOpcode(Opcode),
    /// The answer could not be framed.
    Protocol(ProtocolError),
}

/// The answer to an incoming Raft frame: the reply frame, and the payloads
/// of accepted entries, in order, to append to the WAL.
pub struct FrameResponse {
    pub frame: Vec<u8>,
    pub persist: Vec<Vec<u8>>,
}

/// The values of a sequence of byte vectors.
pub open spec fn payloads_view(v: Seq<Vec<u8>>) -> Seq<Seq<u8>> {
    v.map_values(|b: Vec<u8>| b@)
}

/// The payloads of a run of entries.
pub open spec fn entry_payloads(es: Seq<EntryView>) -> Seq<Seq<u8>> {
    Seq::new(es.len(), |i: int| es[i].payload)
}

/// The value of a frame answer.
pub open spec fn response_view(r: Result<FrameResponse, RaftRuntimeError>) -> Result<
    (Seq<u8>, Seq<Seq<u8>>),
    RaftRuntimeError,
> {
    match r {
        Ok(f) => Ok((f.frame@, payloads_view(f.persist@))),
        Err(e) => Err(e),
    }
}

/// A frame whose payload is `body`.
pub open spec fn reply_frame(opcode: Opcode, body: Seq<u8>) -> Seq<u8> {
    frame_bytes(FrameView { opcode, payload: body })
}

/// Whether answering the frame stays within `u64` indexes: an
/// `AppendEntries` that this node's log matches must not run past
/// `u64::MAX`.
pub open spec fn frame_in_range(v: RuntimeView, opcode: Opcode, payload: Seq<u8>) -> bool {
    opcode == Opcode::AppendEntries ==> match parse_append_entries_family(payload) {
        Some(RaftMessageView::AppendEntries(req)) => v.state.log_matches(req.prev_log_index, req.prev_log_term)
            ==> req.prev_log_index + req.entries.len() <= u64::MAX,
        _ => true,
    }
}

/// One round of replicating a submitted task: the new entry, the request
/// sent to every peer, and how many nodes (this one included) hold it.
pub struct SubmitRound {
    pub entry: RaftLogEntry,
    pub request: AppendEntries,
    pub replicated: usize,
}

impl RuntimeView {
    /// Answering an incoming frame at `now`. A granted vote, or an accepted
    /// `AppendEntries`, draws a new election deadline; the announcement flag
    /// then follows whether the node is leader.
    pub open spec fn after_frame(self, opcode: Opcode, payload: Seq<u8>, now: u64) -> (Self, Result<
        (Seq<u8>, Seq<Seq<u8>>),
        RaftRuntimeError,
    >) {
        match opcode {
            Opcode::RequestVote => match parse_request_vote_family(payload) {
                None => (self, Err(RaftRuntimeError::Codec(RaftCodecError::InvalidPayload))),
                Some(RaftMessageView::RequestVote(req)) => {
                    let (st, reply) = self.state.after_request_vote(req);
                    let s1 = RuntimeView { state: st, ..self };
                    let s2 = if reply.vote_granted { s1.with_deadline_reset(now) } else { s1 };
                    let body = seq![super::wire::REPLY_KIND] + super::wire::request_vote_reply_bytes(reply);
                    (
                        RuntimeView { leader_logged: st.role == Role::Leader, ..s2 },
                        Ok((reply_frame(Opcode::RequestVote, body), Seq::empty())),
                    )
                },
                Some(_) => (self, Err(RaftRuntimeError::UnexpectedReply)),
            },
            Opcode::AppendEntries => match parse_append_entries_family(payload) {
                None => (self, Err(RaftRuntimeError::Codec(RaftCodecError::InvalidPayload))),
                Some(RaftMessageView::AppendEntries(req)) => {
                    let (st, reply) = self.state.after_append_entries(req);
                    let s1 = RuntimeView { state: st, ..self };
                    let s2 = if reply.success { s1.with_deadline_reset(now) } else { s1 };
                    let body = seq![super::wire::REPLY_KIND] + super::wire::append_entries_reply_bytes(reply);
                    let persist = if reply.success { entry_payloads(req.entries) } else { Seq::empty() };
                    (
                        RuntimeView { leader_logged: st.role == Role::Leader, ..s2 },
                        Ok((reply_frame(Opcode::AppendEntries, body), persist)),
                    )
                },
                Some(_) => (self, Err(RaftRuntimeError::UnexpectedReply)),
            },
            _ => (self, Err(RaftRuntimeError::UnsupportedOpcode(opcode))),
        }
    }

    /// Submitting a task payload: only a leader takes it, appending an
    /// entry in its term whose task id is `<node id>-<index>`, and asks each
    /// peer to append that entry behind the one before it.
    pub open spec fn after_submit(self, payload: Seq<u8>) -> (Self, Option<(EntryView, AppendEntriesView)>) {
        if self.state.role != Role::Leader {
            (self, None)
        } else {
            let index = self.state.last_log_index() + 1;
            let (st, e) = self.state.after_local_append(
                self.state.current_term,
                task_id_for(self.node_id, index as nat),
                payload,
            );
            let prev = (e.index - 1) as u64;
            let request = AppendEntriesView {
                term: st.current_term,
                leader_id: self.node_id,
                prev_log_index: prev,
                prev_log_term: match st.term_at(prev) {
                    Some(t) => t,
                    None => 0,
                },
                entries: seq![e],
                leader_commit: st.commit_index,
            };
            (RuntimeView { state: st, ..self }, Some((e, request)))
        }
    }

    /// A peer's reply to the replication request at `now`: a higher term
    /// makes the node step down and ends the round; success counts one more
    /// replica and records the peer's progress; a refusal moves the peer's
    /// next index back by one, not below 1. Returns the replica count and
    /// whether the round ended.
    pub open spec fn after_replication_reply(
        self,
        replicated: usize,
        peer: int,
        reply: AppendEntriesReply,
        now: u64,
    ) -> (Self, usize, bool) {
        if reply.term > self.state.current_term {
            (self.after_higher_term(reply.term, now), replicated, true)
        } else if reply.success {
            (
                RuntimeView {
                    match_index: self.match_index.update(peer, reply.match_index),
                    next_index: self.next_index.update(peer, (reply.match_index + 1) as u64),
                    ..self
                },
                (replicated + 1) as usize,
                false,
            )
        } else {
            let back = sat_sub(self.next_index[peer], 1);
            (
                RuntimeView { next_index: self.next_index.update(peer, if back < 1 { 1 } else { back }), ..self },
                replicated,
                false,
            )
        }
    }

    /// Ending a round: with a majority of replicas the entry at `index` is
    /// committed.
    pub open spec fn after_round(self, replicated: usize, index: u64) -> (Self, bool) {
        if replicated >= self.state.majority() {
            (RuntimeView { state: self.state.committed_through(index), ..self }, true)
        } else {
            (self, false)
        }
    }
}

fn collect_payloads(entries: &Vec<RaftLogEntry>) -> (r: Vec<Vec<u8>>)
    ensures
        payloads_view(r@) == entry_payloads(super::entries_view(entries@)),
{
    let mut out: Vec<Vec<u8>> = Vec::new();
    let mut i: usize = 0;
    while i < entries.len()
        invariant
            i <= entries@.len(),
            payloads_view(out@) == entry_payloads(super::entries_view(entries@.take(i as int))),
        decreases entries@.len() - i,
    {
        let p = entries[i].payload.clone();
        assert(p@ =~= entries@[i as int].payload@);
        let ghost before = out@;
        out.push(p);
        proof {
            assert(payloads_view(out@) =~= payloads_view(before).push(p@));
            assert(super::entries_view(entries@.take(i + 1)) =~= super::entries_view(entries@.take(i as int)).push(entries@[i as int]@));
        }
        i = i + 1;
        assert(payloads_view(out@) =~= entry_payloads(super::entries_view(entries@.take(i as int))));
    }
    assert(entries@.take(i as int) =~= entries@);
    out
}

impl RaftRuntime {
    /// Whether `handle_frame` may be given this frame (see `frame_in_range`).
    pub fn frame_in_range(&self, opcode: Opcode, payload: &[u8]) -> (r: bool)
        ensures
            r == frame_in_range(self@, opcode, payload@),
    {
        if opcode != Opcode::AppendEntries {
            return true;
        }
        match RaftMessage::decode_append_entries_family(payload) {
            Ok(RaftMessage::AppendEntries(req)) => {
                if !self.state.log_matches(req.prev_log_index, req.prev_log_term) {
                    return true;
                }
                req.entries.len() as u64 <= u64::MAX - req.prev_log_index
            },
            _ => true,
        }
    }

    /// Answers an incoming `RequestVote` or `AppendEntries` frame payload at
    /// `now`.
    pub fn handle_frame(&mut self, opcode: Opcode, payload: &[u8], now: u64) -> (r: Result<
        FrameResponse,
        RaftRuntimeError,
    >)
        requires
            old(self)@.wf(),
            frame_in_range(old(self)@, opcode, payload@),
        ensures
            (final(self)@, response_view(r)) == old(self)@.after_frame(opcode, payload@, now),
            final(self)@.wf(),
    {
        match opcode {
            Opcode::RequestVote => {
                let request = match RaftMessage::decode_request_vote_family(payload) {
                    Ok(RaftMessage::RequestVote(request)) => request,
                    Ok(_) => return Err(RaftRuntimeError::UnexpectedReply),
                    Err(e) => return Err(RaftRuntimeError::Codec(e)),
                };
                let reply = self.state.handle_request_vote(request);
                if reply.vote_granted {
                    self.reset_election_deadline(now);
                }
                self.leader_logged = self.state.role() == Role::Leader;
                let body = match RaftMessage::RequestVoteReply(reply).encode_request_vote_family() {
                    Ok(b) => b,
                    Err(e) => return Err(RaftRuntimeError::Codec(e)),
                };
                assert(body@.len() == 10);
                let frame = match Frame::new(Opcode::RequestVote, body).encode() {
                    Ok(f) => f,
                    Err(e) => return Err(RaftRuntimeError::Protocol(e)),
                };
                assert(self@ == old(self)@.after_frame(opcode, payload@, now).0);
                assert(frame@ == old(self)@.after_frame(opcode, payload@, now).1->Ok_0.0);
                let persist: Vec<Vec<u8>> = Vec::new();
                assert(payloads_view(persist@) =~= Seq::<Seq<u8>>::empty());
                Ok(FrameResponse { frame, persist })
            },
            Opcode::AppendEntries => {
                let request = match RaftMessage::decode_append_entries_family(payload) {
                    Ok(RaftMessage::AppendEntries(request)) => request,
                    Ok(_) => return Err(RaftRuntimeError::UnexpectedReply),
                    Err(e) => return Err(RaftRuntimeError::Codec(e)),
                };
                let payloads = collect_payloads(&request.entries);
                let reply = self.state.handle_append_entries(request);
                let persist = if reply.success {
                    self.reset_election_deadline(now);
                    payloads
                } else {
                    Vec::new()
                };
                self.leader_logged = self.state.role() == Role::Leader;
                let body = match RaftMessage::AppendEntriesReply(reply).encode_append_entries_family() {
                    Ok(b) => b,
                    Err(e) => return Err(RaftRuntimeError::Codec(e)),
                };
                assert(body@.len() == 18);
                let frame = match Frame::new(Opcode::AppendEntries, body).encode() {
                    Ok(f) => f,
                    Err(e) => return Err(RaftRuntimeError::Protocol(e)),
                };
                assert(self@ == old(self)@.after_frame(opcode, payload@, now).0);
                assert(frame@ == old(self)@.after_frame(opcode, payload@, now).1->Ok_0.0);
                assert(payloads_view(persist@) == old(self)@.after_frame(opcode, payload@, now).1->Ok_0.1);
                Ok(FrameResponse { frame, persist })
            },
            _ => Err(RaftRuntimeError::UnsupportedOpcode(opcode)),
        }
    }

    /// Starts replicating a task payload. Only a leader takes it: it appends
    /// the entry locally and returns the round, whose request the caller
    /// sends to every peer, reporting each reply with `record_replication`
    /// and ending with `finish_round`. `None` when this node is not leader.
    pub fn submit_task(&mut self, payload: Vec<u8>) -> (r: Option<SubmitRound>)
        requires
            old(self)@.wf(),
            old(self)@.state.role == Role::Leader ==> old(self)@.state.last_log_index() < u64::MAX,
        ensures
            (final(self)@, match r {
                Some(round) => Some((round.entry@, round.request@)),
                None => None,
            }) == old(self)@.after_submit(payload@),
            r matches Some(round) ==> round.replicated == 1,
            final(self)@.wf(),
    {
        if self.state.role() != Role::Leader {
            return None;
        }
        let index = self.state.last_log_index() + 1;
        let mut task_id = String::new();
        push_str(&mut task_id, self.node_id.as_str());
        push_char(&mut task_id, '-');
        push_decimal(&mut task_id, index);
        assert(task_id@ =~= task_id_for(self@.node_id, index as nat));
        let term = self.state.current_term();
        let entry = self.state.append_local_entry(term, task_id, payload);
        let prev = entry.index - 1;
        let prev_term = match self.state.term_at(prev) {
            Some(t) => t,
            None => 0,
        };
        let mut entries: Vec<RaftLogEntry> = Vec::new();
        entries.push(entry.duplicate());
        let request = AppendEntries {
            term: self.state.current_term(),
            leader_id: self.node_id.clone(),
            prev_log_index: prev,
            prev_log_term: prev_term,
            entries,
            leader_commit: self.state.commit_index(),
        };
        assert(request@.entries =~= seq![entry@]);
        Some(SubmitRound { entry, request, replicated: 1 })
    }

    /// Reports peer `peer`'s reply to the round's request, at `now`.
    /// Returns `true` when the reply carried a higher term: the node stepped
    /// down and the round ends with nothing committed.
    pub fn record_replication(
        &mut self,
        round: &mut SubmitRound,
        peer: usize,
        reply: AppendEntriesReply,
        now: u64,
    ) -> (ended: bool)
        requires
            old(self)@.wf(),
            peer < old(self)@.peers.len(),
            old(round).replicated < usize::MAX,
            reply.term <= old(self)@.state.current_term && reply.success ==> reply.match_index < u64::MAX,
        ensures
            (final(self)@, final(round).replicated, ended) == old(self)@.after_replication_reply(
                old(round).replicated,
                peer as int,
                reply,
                now,
            ),
            final(round).entry == old(round).entry,
            final(round).request == old(round).request,
            final(self)@.wf(),
    {
        if reply.term > self.state.current_term() {
            self.step_down(reply.term, now);
            return true;
        }
        if reply.success {
            round.replicated = round.replicated + 1;
            self.match_index.set(peer, reply.match_index);
            self.next_index.set(peer, reply.match_index + 1);
        } else {
            let next = self.next_index[peer];
            let back = if next < 1 { 0 } else { next - 1 };
            self.next_index.set(peer, if back < 1 { 1 } else { back });
        }
        false
    }

    /// Ends a round: with replies from a majority (this node included) the
    /// entry is committed. Returns whether it was.
    pub fn finish_round(&mut self, round: &SubmitRound) -> (committed: bool)
        requires
            old(self)@.wf(),
        ensures
            (final(self)@, committed) == old(self)@.after_round(round.replicated, round.entry.index),
            final(self)@.wf(),
    {
        if round.replicated >= self.state.majority() {
            self.state.commit_through(round.entry.index);
            true
        } else {
            false
        }
    }
}

} // verus!
