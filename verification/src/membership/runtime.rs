//! The decisions of a membership node's event loop: answering membership
//! messages, probing on a timer, escalating missed acknowledgements to
//! suspicion and failure, and piggybacking queued updates on outgoing
//! traffic. The caller owns the UDP socket and the clock: it sends every
//! returned message, in order, and feeds back every message it receives.

use super::{
    lookup, members_view, Member, MemberStatus, MemberView, MembershipMessage, MessageView, SwimState, SwimView,
    UpdateOutcome,
};
use super::state::seed_of;
use crate::text::{self, decimal, push_char, push_decimal, push_str, str_eq};
use vstd::prelude::*;

verus! {

/// Timer and dissemination settings; times in milliseconds.
#[derive(Debug, Clone, Copy, PartialEq, Eq, Structural)]
pub struct MembershipConfig {
    /// Interval between probes.
    pub probe_interval_ms: u64,
    /// Wait for an acknowledgement before escalating a probe.
    pub probe_timeout_ms: u64,
    /// Time a member stays suspect before it is marked failed.
    pub suspect_timeout_ms: u64,
    /// Most queued updates piggybacked on one outgoing message.
    pub piggyback_limit: usize,
    /// How many times each queued update is sent.
    pub dissemination_transmissions: usize,
    /// Most relays asked to probe a target indirectly.
    pub indirect_probe_count: usize,
    /// Interval between membership summaries in the log, if any.
    pub inspection_log_interval_ms: Option<u64>,
}

impl Default for MembershipConfig {
    /// Probes every second with a 500 ms timeout, 3 s of suspicion, up to 4
    /// piggybacked updates each sent 4 times, 3 relays, and a summary every
    /// 5 s.
    fn default() -> (c: Self)
        ensures
            c == (MembershipConfig {
                probe_interval_ms: 1000,
                probe_timeout_ms: 500,
                suspect_timeout_ms: 3000,
                piggyback_limit: 4,
                dissemination_transmissions: 4,
                indirect_probe_count: 3,
                inspection_log_interval_ms: Some(5000),
            }),
    {
        MembershipConfig {
            probe_interval_ms: 1000,
            probe_timeout_ms: 500,
            suspect_timeout_ms: 3000,
            piggyback_limit: 4,
            dissemination_transmissions: 4,
            indirect_probe_count: 3,
            inspection_log_interval_ms: Some(5000),
        }
    }
}

/// Which stage the running probe is in.
#[derive(Debug, Clone, Copy, PartialEq, Eq, Structural)]
pub enum ProbePhase {
    Direct,
    Indirect,
}

/// An update waiting to be piggybacked, with the sends it has left.
pub struct DisseminationUpdate {
    pub member: Member,
    pub remaining_transmissions: usize,
}

pub ghost struct QueuedView {
    pub member: MemberView,
    pub remaining: usize,
}

impl View for DisseminationUpdate {
    type V = QueuedView;

    open spec fn view(&self) -> QueuedView {
        QueuedView { member: self.member@, remaining: self.remaining_transmissions }
    }
}

/// The values of a queue of updates.
pub open spec fn queue_view(v: Seq<DisseminationUpdate>) -> Seq<QueuedView> {
    v.map_values(|u: DisseminationUpdate| u@)
}

/// When a member was marked suspect.
pub struct SuspectMark {
    pub id: String,
    pub marked_at: u64,
}

pub ghost struct MarkView {
    pub id: Seq<char>,
    pub marked_at: u64,
}

impl View for SuspectMark {
    type V = MarkView;

    open spec fn view(&self) -> MarkView {
        MarkView { id: self.id@, marked_at: self.marked_at }
    }
}

/// The values of a list of suspicion marks.
pub open spec fn marks_view(v: Seq<SuspectMark>) -> Seq<MarkView> {
    v.map_values(|m: SuspectMark| m@)
}

/// A message to send, and the address to send it to.
pub struct Outgoing {
    pub addr: String,
    pub message: MembershipMessage,
}

pub ghost struct OutgoingView {
    pub addr: Seq<char>,
    pub message: MessageView,
}

impl View for Outgoing {
    type V = OutgoingView;

    open spec fn view(&self) -> OutgoingView {
        OutgoingView { addr: self.addr@, message: self.message@ }
    }
}

/// The values of a list of outgoing messages.
pub open spec fn outgoing_view(v: Seq<Outgoing>) -> Seq<OutgoingView> {
    v.map_values(|o: Outgoing| o@)
}

/// `a - b`, or 0 when that is negative.
pub open spec fn elapsed(now: u64, since: u64) -> u64 {
    if now < since { 0 } else { (now - since) as u64 }
}

/// Sending up to `n` queued updates: each is taken from the front, sent,
/// and put back at the end while it has sends left.
pub open spec fn piggyback(queue: Seq<QueuedView>, n: nat) -> (Seq<QueuedView>, Seq<MemberView>)
    decreases n,
{
    if n == 0 || queue.len() == 0 {
        (queue, Seq::empty())
    } else {
        let u = queue[0];
        let left = if u.remaining < 1 { 0 } else { (u.remaining - 1) as usize };
        let q2 = if left > 0 {
            queue.drop_first().push(QueuedView { member: u.member, remaining: left })
        } else {
            queue.drop_first()
        };
        let (q3, sent) = piggyback(q2, (n - 1) as nat);
        (q3, seq![u.member] + sent)
    }
}

/// `MembershipUpdate` messages carrying `ms`, all to `addr`.
pub open spec fn updates_to(addr: Seq<char>, ms: Seq<MemberView>) -> Seq<OutgoingView> {
    Seq::new(ms.len(), |i: int| OutgoingView { addr, message: MessageView::Update(ms[i]) })
}

/// Whether merging `m` stays within `u64` incarnations: a suspicion of the
/// local node must leave room to refute it one incarnation higher.
pub open spec fn member_in_range(local_id: Seq<char>, m: MemberView) -> bool {
    m.id == local_id && m.status == MemberStatus::Suspect ==> m.incarnation < u64::MAX
}

/// Whether every member of `ms` is in range.
pub open spec fn members_in_range(local_id: Seq<char>, ms: Seq<MemberView>) -> bool {
    forall|i: int| 0 <= i < ms.len() ==> #[trigger] member_in_range(local_id, ms[i])
}

/// Whether every member a message carries is in range.
pub open spec fn message_in_range(local_id: Seq<char>, msg: MessageView) -> bool {
    match msg {
        MessageView::Join(m) => member_in_range(local_id, m),
        MessageView::Update(m) => member_in_range(local_id, m),
        MessageView::JoinAck(ms) => members_in_range(local_id, ms),
        _ => true,
    }
}

/// Queued updates about members other than `id`.
pub open spec fn not_about(id: Seq<char>) -> spec_fn(QueuedView) -> bool {
    |q: QueuedView| q.member.id != id
}

/// Suspicion marks of members other than `id`.
pub open spec fn mark_not_for(id: Seq<char>) -> spec_fn(MarkView) -> bool {
    |k: MarkView| k.id != id
}

/// The value of the runtime's state.
pub ghost struct RuntimeView {
    pub swim: SwimView,
    pub config: MembershipConfig,
    pub last_probe_at: u64,
    pub probe_started_at: Option<u64>,
    pub probe_phase: Option<ProbePhase>,
    pub suspects: Seq<MarkView>,
    pub queue: Seq<QueuedView>,
    pub last_log_at: u64,
}

impl RuntimeView {
    pub open spec fn wf(self) -> bool {
        self.swim.wf()
    }

    /// Queueing `m` for dissemination: updates about this node, or with no
    /// transmissions configured, are not queued; otherwise any queued update
    /// about the same member is replaced by `m` at the back.
    pub open spec fn queued(self, m: MemberView) -> Self {
        if m.id == self.swim.local_id || self.config.dissemination_transmissions == 0 {
            self
        } else {
            RuntimeView {
                queue: self.queue.filter(not_about(m.id)).push(
                    QueuedView { member: m, remaining: self.config.dissemination_transmissions },
                ),
                ..self
            }
        }
    }

    /// Sending `msg` to `addr`: unless it is itself an update, up to the
    /// piggyback limit of queued updates follow it to the same address.
    pub open spec fn after_send(self, addr: Seq<char>, msg: MessageView) -> (Self, Seq<OutgoingView>) {
        let first = seq![OutgoingView { addr, message: msg }];
        if msg is Update {
            (self, first)
        } else {
            let n = if self.config.piggyback_limit < self.queue.len() {
                self.config.piggyback_limit as nat
            } else {
                self.queue.len()
            };
            let (q, sent) = piggyback(self.queue, n);
            (RuntimeView { queue: q, ..self }, first + updates_to(addr, sent))
        }
    }

    /// Merging a member learned from another node; an applied update is
    /// queued for dissemination.
    pub open spec fn after_remote_update(self, m: MemberView) -> Self {
        let (sw, outcome) = self.swim.after_update(m);
        let s = RuntimeView { swim: sw, ..self };
        if outcome == UpdateOutcome::Applied { s.queued(m) } else { s }
    }

    /// Merging each member in turn.
    pub open spec fn after_remote_updates(self, ms: Seq<MemberView>) -> Self
        decreases ms.len(),
    {
        if ms.len() == 0 {
            self
        } else {
            self.after_remote_updates(ms.drop_last()).after_remote_update(ms.last())
        }
    }

    /// Answering a message that arrived from `source`.
    pub open spec fn after_message(self, source: Seq<char>, msg: MessageView) -> (Self, Seq<OutgoingView>) {
        let local = self.swim.local_id;
        match msg {
            MessageView::Join(m) => {
                let s = self.after_remote_update(m);
                s.after_send(m.addr, MessageView::JoinAck(s.swim.members))
            },
            MessageView::JoinAck(ms) => (self.after_remote_updates(ms), Seq::empty()),
            MessageView::Update(m) => (self.after_remote_update(m), Seq::empty()),
            MessageView::Ping { from, target } => if target == local {
                let addr = match lookup(self.swim.members, from) {
                    Some(m) => m.addr,
                    None => source,
                };
                self.after_send(addr, MessageView::Ack { from: local, target: from })
            } else {
                (self, Seq::empty())
            },
            MessageView::Ack { from, target } => if target == local {
                let (sw, cleared) = self.swim.after_ack(from);
                if cleared {
                    (
                        RuntimeView {
                            swim: sw,
                            probe_started_at: None,
                            probe_phase: None,
                            suspects: self.suspects.filter(mark_not_for(from)),
                            ..self
                        },
                        Seq::empty(),
                    )
                } else {
                    (RuntimeView { swim: sw, ..self }, Seq::empty())
                }
            } else {
                (self, Seq::empty())
            },
            MessageView::PingReq { from, target, relay } => if relay == local {
                match lookup(self.swim.members, target) {
                    Some(m) => self.after_send(m.addr, MessageView::Ping { from, target }),
                    None => (self, Seq::empty()),
                }
            } else {
                (self, Seq::empty())
            },
        }
    }

    /// Asking each of `peers` in turn to let this node join.
    pub open spec fn after_join_requests(self, peers: Seq<Seq<char>>) -> (Self, Seq<OutgoingView>)
        decreases peers.len(),
    {
        if peers.len() == 0 {
            (self, Seq::empty())
        } else {
            let (s, out) = self.after_join_requests(peers.drop_last());
            let (s2, out2) = s.after_send(
                peers.last(),
                MessageView::Join(lookup(self.swim.members, self.swim.local_id)->Some_0),
            );
            (s2, out + out2)
        }
    }
}

/// The label of a status in summaries.
pub open spec fn status_label(s: MemberStatus) -> Seq<char> {
    match s {
        MemberStatus::Alive => "Alive"@,
        MemberStatus::Suspect => "Suspect"@,
        MemberStatus::Failed => "Failed"@,
        MemberStatus::Left => "Left"@,
    }
}

/// One member in a summary: `id=Status@incarnation`.
pub open spec fn member_summary(m: MemberView) -> Seq<char> {
    m.id + seq!['='] + status_label(m.status) + seq!['@'] + decimal(m.incarnation as nat)
}

/// The members' summaries joined by commas.
pub open spec fn summary(ms: Seq<MemberView>) -> Seq<char>
    decreases ms.len(),
{
    if ms.len() == 0 {
        Seq::empty()
    } else if ms.len() == 1 {
        member_summary(ms[0])
    } else {
        summary(ms.drop_last()) + seq![','] + member_summary(ms.last())
    }
}

/// Ids of the marks at least `timeout` old at `now`, in mark order.
pub open spec fn timed_out_ids(ks: Seq<MarkView>, now: u64, timeout: u64) -> Seq<Seq<char>>
    decreases ks.len(),
{
    if ks.len() == 0 {
        Seq::empty()
    } else {
        let r = timed_out_ids(ks.drop_last(), now, timeout);
        if elapsed(now, ks.last().marked_at) >= timeout { r.push(ks.last().id) } else { r }
    }
}

impl RuntimeView {
    /// Marking the pending probe's target suspect at `now`: the probe ends,
    /// and a member that became suspect is timed from `now` and queued.
    pub open spec fn after_probe_suspect(self, now: u64) -> Self {
        let s = RuntimeView { probe_started_at: None, probe_phase: None, ..self };
        let (sw, m) = s.swim.after_suspect_pending();
        let s2 = RuntimeView { swim: sw, ..s };
        match m {
            Some(m) => RuntimeView {
                suspects: s2.suspects.filter(mark_not_for(m.id)).push(MarkView { id: m.id, marked_at: now }),
                ..s2
            }.queued(m),
            None => s2,
        }
    }

    /// Asking each relay in turn to ping `target`; relays that are unknown
    /// or cannot relay are skipped.
    pub open spec fn after_relay_pings(self, target: Seq<char>, relays: Seq<Seq<char>>) -> (Self, Seq<OutgoingView>)
        decreases relays.len(),
    {
        if relays.len() == 0 {
            (self, Seq::empty())
        } else {
            let (s, out) = self.after_relay_pings(target, relays.drop_last());
            let r = relays.last();
            match lookup(s.swim.members, r) {
                None => (s, out),
                Some(m) => match s.swim.indirect_ping(target, r) {
                    None => (s, out),
                    Some(msg) => {
                        let (s2, o2) = s.after_send(m.addr, msg);
                        (s2, out + o2)
                    },
                },
            }
        }
    }

    /// Escalating a timed-out direct probe at `now`: relays are asked to
    /// ping the target; with no relay the target becomes suspect at once.
    /// Returns whether a probe was escalated.
    pub open spec fn after_indirect_probe(self, now: u64) -> (Self, Seq<OutgoingView>, bool) {
        match self.swim.pending {
            None => (RuntimeView { probe_started_at: None, probe_phase: None, ..self }, Seq::empty(), false),
            Some(target) => {
                let (sw, relays) = self.swim.after_relays(target, self.config.indirect_probe_count);
                let s = RuntimeView { swim: sw, ..self };
                if relays.len() == 0 {
                    (s.after_probe_suspect(now), Seq::empty(), true)
                } else {
                    let (s2, out) = s.after_relay_pings(target, relays);
                    (
                        RuntimeView { probe_started_at: Some(now), probe_phase: Some(ProbePhase::Indirect), ..s2 },
                        out,
                        true,
                    )
                }
            },
        }
    }

    /// Handling a probe whose timeout has passed at `now`: a direct probe
    /// is escalated, an indirect one makes the target suspect. Returns
    /// whether the probe timed out.
    pub open spec fn after_probe_timeout(self, now: u64) -> (Self, Seq<OutgoingView>, bool) {
        match self.probe_started_at {
            None => (self, Seq::empty(), false),
            Some(t) => if elapsed(now, t) < self.config.probe_timeout_ms {
                (self, Seq::empty(), false)
            } else {
                match self.probe_phase {
                    Some(ProbePhase::Direct) => self.after_indirect_probe(now),
                    Some(ProbePhase::Indirect) => (self.after_probe_suspect(now), Seq::empty(), true),
                    None => (self, Seq::empty(), false),
                }
            },
        }
    }

    /// Marking each of `ids` failed in turn, queueing the failures and
    /// dropping their suspicion marks.
    pub open spec fn after_fail_ids(self, ids: Seq<Seq<char>>) -> Self
        decreases ids.len(),
    {
        if ids.len() == 0 {
            self
        } else {
            let s = self.after_fail_ids(ids.drop_last());
            let id = ids.last();
            let (sw, m) = s.swim.after_mark_failed(id);
            let s2 = RuntimeView { swim: sw, ..s };
            let s3 = match m {
                Some(m) => s2.queued(m),
                None => s2,
            };
            RuntimeView { suspects: s3.suspects.filter(mark_not_for(id)), ..s3 }
        }
    }

    /// Starting a direct probe at `now` when none is running and the probe
    /// interval has passed: a random probeable member is pinged.
    pub open spec fn after_probe_due(self, now: u64) -> (Self, Seq<OutgoingView>) {
        if self.probe_started_at is Some || elapsed(now, self.last_probe_at) < self.config.probe_interval_ms {
            (self, Seq::empty())
        } else {
            let s = RuntimeView { last_probe_at: now, ..self };
            let (sw, t) = s.swim.after_probe_target();
            let s1 = RuntimeView { swim: sw, ..s };
            match t {
                None => (s1, Seq::empty()),
                Some(target) => {
                    let (sw2, msg) = s1.swim.after_direct_ping(target);
                    let s2 = RuntimeView { swim: sw2, ..s1 };
                    match msg {
                        None => (s2, Seq::empty()),
                        Some(m) => match lookup(s2.swim.members, target) {
                            None => (s2, Seq::empty()),
                            Some(mem) => {
                                let (s3, out) = s2.after_send(mem.addr, m);
                                (
                                    RuntimeView {
                                        probe_started_at: Some(now),
                                        probe_phase: Some(ProbePhase::Direct),
                                        ..s3
                                    },
                                    out,
                                )
                            },
                        },
                    }
                },
            }
        }
    }

    /// The summary line logged at `now` when the inspection interval has
    /// passed: `membership <local id>: <summary>`.
    pub open spec fn after_log_due(self, now: u64) -> (Self, Option<Seq<char>>) {
        match self.config.inspection_log_interval_ms {
            None => (self, None),
            Some(iv) => if elapsed(now, self.last_log_at) < iv {
                (self, None)
            } else {
                (
                    RuntimeView { last_log_at: now, ..self },
                    Some("membership "@ + self.swim.local_id + ": "@ + summary(self.swim.members)),
                )
            },
        }
    }

    /// A clock tick at `now`: probe timeouts, then suspicion timeouts, then
    /// (unless a probe just timed out) a new probe, then the summary log.
    pub open spec fn after_tick(self, now: u64) -> (Self, Seq<OutgoingView>, Option<Seq<char>>) {
        let (s1, out1, timed_out) = self.after_probe_timeout(now);
        let s2 = s1.after_fail_ids(timed_out_ids(s1.suspects, now, s1.config.suspect_timeout_ms));
        let (s3, out3) = if timed_out { (s2, Seq::empty()) } else { s2.after_probe_due(now) };
        let (s4, line) = s3.after_log_due(now);
        (s4, out1 + out3, line)
    }
}

/// What a tick asks of the caller: messages to send, in order, and a line
/// to log.
pub struct TickOutput {
    pub outgoing: Vec<Outgoing>,
    pub log_line: Option<String>,
}

fn status_label_str(s: MemberStatus) -> (r: &'static str)
    ensures
        r@ == status_label(s),
{
    match s {
        MemberStatus::Alive => "Alive",
        MemberStatus::Suspect => "Suspect",
        MemberStatus::Failed => "Failed",
        MemberStatus::Left => "Left",
    }
}

/// The membership side of a node.
pub struct MembershipRuntime {
    state: SwimState,
    config: MembershipConfig,
    last_probe_at: u64,
    probe_started_at: Option<u64>,
    probe_phase: Option<ProbePhase>,
    suspects: Vec<SuspectMark>,
    queue: Vec<DisseminationUpdate>,
    last_inspection_log_at: u64,
}

impl View for MembershipRuntime {
    type V = RuntimeView;

    closed spec fn view(&self) -> RuntimeView {
        RuntimeView {
            swim: self.state@,
            config: self.config,
            last_probe_at: self.last_probe_at,
            probe_started_at: self.probe_started_at,
            probe_phase: self.probe_phase,
            suspects: marks_view(self.suspects@),
            queue: queue_view(self.queue@),
            last_log_at: self.last_inspection_log_at,
        }
    }
}

fn copy_members(ms: &[Member]) -> (r: Vec<Member>)
    ensures
        members_view(r@) == members_view(ms@),
{
    let mut r: Vec<Member> = Vec::new();
    let mut i: usize = 0;
    while i < ms.len()
        invariant
            i <= ms@.len(),
            members_view(r@) == members_view(ms@.take(i as int)),
        decreases ms@.len() - i,
    {
        let m = ms[i].duplicate();
        let ghost before = r@;
        r.push(m);
        assert(members_view(r@) =~= members_view(before).push(ms@[i as int]@));
        assert(members_view(ms@.take(i + 1)) =~= members_view(ms@.take(i as int)).push(ms@[i as int]@));
        i = i + 1;
    }
    assert(ms@.take(i as int) =~= ms@);
    r
}

impl MembershipRuntime {
    /// A node that knows only itself, with its timers started at `now`.
    pub fn new(local_id: String, local_addr: String, config: MembershipConfig, now: u64) -> (r: Self)
        ensures
            r@.wf(),
            r@.swim == (SwimView {
                local_id: local_id@,
                members: seq![MemberView { id: local_id@, addr: local_addr@, status: MemberStatus::Alive, incarnation: 0 }],
                pending: None,
                rng: seed_of(local_id@, local_addr@),
            }),
            r@.config == config,
            r@.last_probe_at == now,
            r@.last_log_at == now,
            r@.probe_started_at is None,
            r@.probe_phase is None,
            r@.suspects == Seq::<MarkView>::empty(),
            r@.queue == Seq::<QueuedView>::empty(),
    {
        let r = MembershipRuntime {
            state: SwimState::new(local_id, local_addr),
            config,
            last_probe_at: now,
            probe_started_at: None,
            probe_phase: None,
            suspects: Vec::new(),
            queue: Vec::new(),
            last_inspection_log_at: now,
        };
        assert(marks_view(r.suspects@) =~= Seq::<MarkView>::empty());
        assert(queue_view(r.queue@) =~= Seq::<QueuedView>::empty());
        r
    }

    /// The membership table.
    pub fn state(&self) -> (r: &SwimState)
        ensures
            r@ == self@.swim,
    {
        &self.state
    }

    /// All members, in id order.
    pub fn members(&self) -> (r: &[Member])
        ensures
            members_view(r@) == self@.swim.members,
    {
        self.state.members()
    }

    /// Queues `member` for dissemination (see `RuntimeView::queued`).
    pub fn queue_update(&mut self, member: Member)
        ensures
            final(self)@ == old(self)@.queued(member@),
    {
        if str_eq(member.id.as_str(), self.state.local_id()) {
            return;
        }
        if self.config.dissemination_transmissions == 0 {
            return;
        }
        let ghost q0 = queue_view(self.queue@);
        let ghost pred = not_about(member@.id);
        let mut kept: Vec<DisseminationUpdate> = Vec::new();
        let mut i: usize = 0;
        assert(q0.take(0).filter(pred) =~= Seq::<QueuedView>::empty()) by {
            reveal(Seq::filter);
        }
        assert(queue_view(kept@) =~= Seq::<QueuedView>::empty());
        while i < self.queue.len()
            invariant
                q0 == queue_view(self.queue@),
                pred == not_about(member@.id),
                i <= q0.len(),
                queue_view(kept@) == q0.take(i as int).filter(pred),
            decreases q0.len() - i,
        {
            let u = &self.queue[i];
            let keep = !str_eq(u.member.id.as_str(), member.id.as_str());
            let ghost before = q0.take(i as int).filter(pred);
            proof {
                reveal(Seq::filter);
                assert(q0.take(i + 1).drop_last() =~= q0.take(i as int));
                assert(q0.take(i + 1).last() == q0[i as int]);
                assert(keep == pred(q0[i as int]));
            }
            if keep {
                let copy = DisseminationUpdate {
                    member: u.member.duplicate(),
                    remaining_transmissions: u.remaining_transmissions,
                };
                let ghost k_before = kept@;
                kept.push(copy);
                assert(queue_view(kept@) =~= queue_view(k_before).push(q0[i as int]));
            }
            i = i + 1;
        }
        assert(q0.take(i as int) =~= q0);
        let transmissions = self.config.dissemination_transmissions;
        let ghost before = kept@;
        kept.push(DisseminationUpdate { member, remaining_transmissions: transmissions });
        assert(queue_view(kept@) =~= queue_view(before).push(QueuedView { member: member@, remaining: transmissions }));
        self.queue = kept;
    }

    fn push_piggyback(&mut self, addr: &String, out: &mut Vec<Outgoing>)
        ensures
            ({
                let q0 = old(self)@.queue;
                let n = if old(self)@.config.piggyback_limit < q0.len() {
                    old(self)@.config.piggyback_limit as nat
                } else {
                    q0.len()
                };
                let (q, sent) = piggyback(q0, n);
                &&& final(self)@ == (RuntimeView { queue: q, ..old(self)@ })
                &&& outgoing_view(final(out)@) == outgoing_view(old(out)@) + updates_to(addr@, sent)
            }),
    {
        let ghost q0 = old(self)@.queue;
        let limit = if self.config.piggyback_limit < self.queue.len() {
            self.config.piggyback_limit
        } else {
            self.queue.len()
        };
        let ghost mut sent: Seq<MemberView> = Seq::empty();
        let ghost out0 = outgoing_view(out@);
        let mut k: usize = 0;
        assert(updates_to(addr@, sent) =~= Seq::<OutgoingView>::empty());
        assert(out0 + Seq::<OutgoingView>::empty() =~= out0);
        assert(sent + piggyback(q0, limit as nat).1 =~= piggyback(q0, limit as nat).1);
        while k < limit
            invariant
                k <= limit,
                self.queue@.len() >= limit - k,
                self@ == (RuntimeView { queue: self@.queue, ..old(self)@ }),
                piggyback(q0, limit as nat) == (
                    piggyback(self@.queue, (limit - k) as nat).0,
                    sent + piggyback(self@.queue, (limit - k) as nat).1,
                ),
                outgoing_view(out@) == out0 + updates_to(addr@, sent),
            decreases limit - k,
        {
            let ghost cur = self@.queue;
            let ghost n = (limit - k) as nat;
            let ghost cur_vec = self.queue@;
            let mut u = self.queue.remove(0);
            proof {
                assert(u@ == cur[0]);
                assert(queue_view(self.queue@) =~= cur.drop_first());
            }
            let update = MembershipMessage::Update(u.member.duplicate());
            let ghost out_before = out@;
            out.push(Outgoing { addr: addr.clone(), message: update });
            u.remaining_transmissions = if u.remaining_transmissions < 1 { 0 } else { u.remaining_transmissions - 1 };
            if u.remaining_transmissions > 0 {
                let ghost q_before = self.queue@;
                self.queue.push(u);
                assert(queue_view(self.queue@) =~= queue_view(q_before).push(u@));
            }
            proof {
                let m0 = cur[0];
                let left = if m0.remaining < 1 { 0usize } else { (m0.remaining - 1) as usize };
                let q2 = if left > 0 {
                    cur.drop_first().push(QueuedView { member: m0.member, remaining: left })
                } else {
                    cur.drop_first()
                };
                assert(self@.queue == q2);
                let rest = piggyback(q2, (n - 1) as nat);
                assert(piggyback(cur, n) == (rest.0, seq![m0.member] + rest.1));
                assert(outgoing_view(out@) =~= outgoing_view(out_before).push(
                    OutgoingView { addr: addr@, message: MessageView::Update(m0.member) },
                ));
                assert(updates_to(addr@, sent.push(m0.member)) =~= updates_to(addr@, sent).push(
                    OutgoingView { addr: addr@, message: MessageView::Update(m0.member) },
                ));
                assert(sent.push(m0.member) + rest.1 =~= sent + (seq![m0.member] + rest.1));
                sent = sent.push(m0.member);
            }
            k = k + 1;
        }
        assert(sent + Seq::<MemberView>::empty() =~= sent);
    }

    /// Sends `message` to `addr` (see `RuntimeView::after_send`), adding the
    /// messages to `out`.
    pub fn send_message(&mut self, addr: String, message: MembershipMessage, out: &mut Vec<Outgoing>)
        ensures
            final(self)@ == old(self)@.after_send(addr@, message@).0,
            outgoing_view(final(out)@) == outgoing_view(old(out)@) + old(self)@.after_send(addr@, message@).1,
    {
        let is_update = match &message {
            MembershipMessage::Update(_) => true,
            _ => false,
        };
        let ghost msg = message@;
        let ghost out0 = outgoing_view(out@);
        out.push(Outgoing { addr: addr.clone(), message });
        assert(outgoing_view(out@) =~= out0 + seq![OutgoingView { addr: addr@, message: msg }]);
        if !is_update {
            self.push_piggyback(&addr, out);
            assert(outgoing_view(out@) =~= out0 + (seq![OutgoingView { addr: addr@, message: msg }]
                + old(self)@.after_send(addr@, msg).1.skip(1)));
            assert(old(self)@.after_send(addr@, msg).1 =~= seq![OutgoingView { addr: addr@, message: msg }]
                + old(self)@.after_send(addr@, msg).1.skip(1));
        }
    }

    /// Merges a member learned from another node, queueing it when applied.
    pub fn apply_remote_update(&mut self, member: Member)
        requires
            old(self)@.wf(),
            member_in_range(old(self)@.swim.local_id, member@),
        ensures
            final(self)@ == old(self)@.after_remote_update(member@),
            final(self)@.wf(),
    {
        let copy = member.duplicate();
        if self.state.apply_update(member) == UpdateOutcome::Applied {
            self.queue_update(copy);
        }
    }

    /// Answers a message that arrived from `source`; returns the messages
    /// to send, in order.
    pub fn handle_message(&mut self, source: String, message: MembershipMessage) -> (out: Vec<Outgoing>)
        requires
            old(self)@.wf(),
            message_in_range(old(self)@.swim.local_id, message@),
        ensures
            (final(self)@, outgoing_view(out@)) == old(self)@.after_message(source@, message@),
            final(self)@.wf(),
    {
        let mut out: Vec<Outgoing> = Vec::new();
        let ghost msg = message@;
        match message {
            MembershipMessage::Join(member) => {
                let addr = member.addr.clone();
                self.apply_remote_update(member);
                let known = copy_members(self.state.members());
                self.send_message(addr, MembershipMessage::JoinAck(known), &mut out);
                assert(outgoing_view(out@) =~= Seq::<OutgoingView>::empty() + old(self)@.after_message(source@, msg).1);
            },
            MembershipMessage::JoinAck(members) => {
                let ghost ms = members_view(members@);
                let mut i: usize = 0;
                assert(ms.take(0) =~= Seq::<MemberView>::empty());
                assert(msg == MessageView::JoinAck(ms));
                while i < members.len()
                    invariant
                        ms == members_view(members@),
                        i <= ms.len(),
                        self@ == old(self)@.after_remote_updates(ms.take(i as int)),
                        self@.wf(),
                        self@.swim.local_id == old(self)@.swim.local_id,
                        members_in_range(old(self)@.swim.local_id, ms),
                    decreases ms.len() - i,
                {
                    let m = members[i].duplicate();
                    assert(member_in_range(old(self)@.swim.local_id, ms[i as int]));
                    self.apply_remote_update(m);
                    assert(ms.take(i + 1).drop_last() =~= ms.take(i as int));
                    i = i + 1;
                }
                assert(ms.take(i as int) =~= ms);
                assert(outgoing_view(out@) =~= Seq::<OutgoingView>::empty());
            },
            MembershipMessage::Update(member) => {
                self.apply_remote_update(member);
                assert(outgoing_view(out@) =~= Seq::<OutgoingView>::empty());
            },
            MembershipMessage::Ping { from, target } => {
                if str_eq(target.as_str(), self.state.local_id()) {
                    let addr = match self.state.member(from.as_str()) {
                        Some(m) => m.addr.clone(),
                        None => source,
                    };
                    let local = self.state.local_id().to_string();
                    self.send_message(addr, MembershipMessage::Ack { from: local, target: from }, &mut out);
                    assert(outgoing_view(out@) =~= Seq::<OutgoingView>::empty() + old(self)@.after_message(source@, msg).1);
                } else {
                    assert(outgoing_view(out@) =~= Seq::<OutgoingView>::empty());
                }
            },
            MembershipMessage::Ack { from, target } => {
                if str_eq(target.as_str(), self.state.local_id()) {
                    if self.state.handle_ack(from.as_str()) {
                        self.probe_started_at = None;
                        self.probe_phase = None;
                        self.clear_suspicion(from.as_str());
                    }
                }
                assert(outgoing_view(out@) =~= Seq::<OutgoingView>::empty());
            },
            MembershipMessage::PingReq { from, target, relay } => {
                if str_eq(relay.as_str(), self.state.local_id()) {
                    let addr = match self.state.member(target.as_str()) {
                        Some(m) => Some(m.addr.clone()),
                        None => None,
                    };
                    match addr {
                        Some(a) => {
                            self.send_message(a, MembershipMessage::Ping { from, target }, &mut out);
                            assert(outgoing_view(out@) =~= Seq::<OutgoingView>::empty() + old(self)@.after_message(source@, msg).1);
                        },
                        None => {
                            assert(outgoing_view(out@) =~= Seq::<OutgoingView>::empty());
                        },
                    }
                } else {
                    assert(outgoing_view(out@) =~= Seq::<OutgoingView>::empty());
                }
            },
        }
        out
    }

    fn clear_suspicion(&mut self, id: &str)
        ensures
            final(self)@ == (RuntimeView { suspects: old(self)@.suspects.filter(mark_not_for(id@)), ..old(self)@ }),
    {
        let ghost k0 = marks_view(self.suspects@);
        let ghost pred = mark_not_for(id@);
        let mut kept: Vec<SuspectMark> = Vec::new();
        let mut i: usize = 0;
        assert(k0.take(0).filter(pred) =~= Seq::<MarkView>::empty()) by {
            reveal(Seq::filter);
        }
        assert(marks_view(kept@) =~= Seq::<MarkView>::empty());
        while i < self.suspects.len()
            invariant
                k0 == marks_view(self.suspects@),
                pred == mark_not_for(id@),
                i <= k0.len(),
                marks_view(kept@) == k0.take(i as int).filter(pred),
            decreases k0.len() - i,
        {
            let m = &self.suspects[i];
            let keep = !str_eq(m.id.as_str(), id);
            proof {
                reveal(Seq::filter);
                assert(k0.take(i + 1).drop_last() =~= k0.take(i as int));
                assert(k0.take(i + 1).last() == k0[i as int]);
                assert(keep == pred(k0[i as int]));
            }
            if keep {
                let copy = SuspectMark { id: m.id.clone(), marked_at: m.marked_at };
                let ghost before = kept@;
                kept.push(copy);
                assert(marks_view(kept@) =~= marks_view(before).push(k0[i as int]));
            }
            i = i + 1;
        }
        assert(k0.take(i as int) =~= k0);
        self.suspects = kept;
    }

    fn end_probe_with_suspicion(&mut self, now: u64)
        requires
            old(self)@.wf(),
        ensures
            final(self)@ == old(self)@.after_probe_suspect(now),
            final(self)@.wf(),
    {
        self.probe_started_at = None;
        self.probe_phase = None;
        match self.state.mark_pending_ping_suspect() {
            Some(m) => {
                self.clear_suspicion(m.id.as_str());
                let ghost before = self.suspects@;
                self.suspects.push(SuspectMark { id: m.id.clone(), marked_at: now });
                assert(marks_view(self.suspects@) =~= marks_view(before).push(MarkView { id: m.id@, marked_at: now }));
                self.queue_update(m);
            },
            None => {},
        }
    }

    fn start_indirect_probe(&mut self, now: u64, out: &mut Vec<Outgoing>) -> (escalated: bool)
        requires
            old(self)@.wf(),
        ensures
            final(self)@ == old(self)@.after_indirect_probe(now).0,
            outgoing_view(final(out)@) == outgoing_view(old(out)@) + old(self)@.after_indirect_probe(now).1,
            escalated == old(self)@.after_indirect_probe(now).2,
            final(self)@.wf(),
    {
        let ghost out0 = outgoing_view(out@);
        let target = match self.state.pending_ping() {
            Some(p) => p.target.clone(),
            None => {
                self.probe_started_at = None;
                self.probe_phase = None;
                assert(outgoing_view(out@) =~= out0 + Seq::<OutgoingView>::empty());
                return false;
            },
        };
        let limit = self.config.indirect_probe_count;
        let relays = self.state.indirect_ping_relays(target.as_str(), limit);
        if relays.len() == 0 {
            self.end_probe_with_suspicion(now);
            assert(outgoing_view(out@) =~= out0 + Seq::<OutgoingView>::empty());
            return true;
        }
        let ghost mid = self@;
        let ghost rs = super::state::strings_view(relays@);
        let mut i: usize = 0;
        assert(rs.take(0) =~= Seq::<Seq<char>>::empty());
        assert(out0 + Seq::<OutgoingView>::empty() =~= out0);
        while i < relays.len()
            invariant
                rs == super::state::strings_view(relays@),
                i <= rs.len(),
                self@ == mid.after_relay_pings(target@, rs.take(i as int)).0,
                outgoing_view(out@) == out0 + mid.after_relay_pings(target@, rs.take(i as int)).1,
                self@.swim == mid.swim,
                mid.wf(),
            decreases rs.len() - i,
        {
            let relay = &relays[i];
            proof {
                assert(rs.take(i + 1).drop_last() =~= rs.take(i as int));
                assert(rs.take(i + 1).last() == rs[i as int]);
                assert(relay@ == rs[i as int]);
            }
            let addr = match self.state.member(relay.as_str()) {
                Some(m) => Some(m.addr.clone()),
                None => None,
            };
            match addr {
                None => {},
                Some(a) => match self.state.start_indirect_ping(target.clone(), relay.clone()) {
                    None => {},
                    Some(msg) => {
                        let ghost o_before = outgoing_view(out@);
                        self.send_message(a, msg, out);
                        assert(outgoing_view(out@) =~= out0 + mid.after_relay_pings(target@, rs.take(i + 1)).1);
                    },
                },
            }
            i = i + 1;
        }
        assert(rs.take(i as int) =~= rs);
        self.probe_started_at = Some(now);
        self.probe_phase = Some(ProbePhase::Indirect);
        true
    }

    fn timed_out(&self, now: u64) -> (ids: Vec<String>)
        ensures
            super::state::strings_view(ids@) == timed_out_ids(self@.suspects, now, self@.config.suspect_timeout_ms),
    {
        let ghost ks = self@.suspects;
        let timeout = self.config.suspect_timeout_ms;
        let mut ids: Vec<String> = Vec::new();
        let mut i: usize = 0;
        assert(ks.take(0) =~= Seq::<MarkView>::empty());
        assert(super::state::strings_view(ids@) =~= Seq::<Seq<char>>::empty());
        while i < self.suspects.len()
            invariant
                ks == marks_view(self.suspects@),
                timeout == self@.config.suspect_timeout_ms,
                i <= ks.len(),
                super::state::strings_view(ids@) == timed_out_ids(ks.take(i as int), now, timeout),
            decreases ks.len() - i,
        {
            let k = &self.suspects[i];
            proof {
                assert(ks.take(i + 1).drop_last() =~= ks.take(i as int));
                assert(ks.take(i + 1).last() == ks[i as int]);
            }
            let since = if now < k.marked_at { 0 } else { now - k.marked_at };
            if since >= timeout {
                let ghost before = ids@;
                ids.push(k.id.clone());
                assert(super::state::strings_view(ids@) =~= super::state::strings_view(before).push(k.id@));
            }
            i = i + 1;
        }
        assert(ks.take(i as int) =~= ks);
        ids
    }

    fn fail_timed_out_suspects(&mut self, now: u64)
        requires
            old(self)@.wf(),
        ensures
            final(self)@ == old(self)@.after_fail_ids(
                timed_out_ids(old(self)@.suspects, now, old(self)@.config.suspect_timeout_ms),
            ),
            final(self)@.wf(),
    {
        let ids = self.timed_out(now);
        let ghost idv = super::state::strings_view(ids@);
        let ghost start = self@;
        let mut i: usize = 0;
        assert(idv.take(0) =~= Seq::<Seq<char>>::empty());
        while i < ids.len()
            invariant
                idv == super::state::strings_view(ids@),
                i <= idv.len(),
                self@ == start.after_fail_ids(idv.take(i as int)),
                self@.wf(),
            decreases idv.len() - i,
        {
            proof {
                assert(idv.take(i + 1).drop_last() =~= idv.take(i as int));
                assert(idv.take(i + 1).last() == idv[i as int]);
            }
            match self.state.mark_failed(ids[i].as_str()) {
                Some(m) => self.queue_update(m),
                None => {},
            }
            self.clear_suspicion(ids[i].as_str());
            i = i + 1;
        }
        assert(idv.take(i as int) =~= idv);
    }

    fn start_probe_if_due(&mut self, now: u64, out: &mut Vec<Outgoing>)
        requires
            old(self)@.wf(),
        ensures
            final(self)@ == old(self)@.after_probe_due(now).0,
            outgoing_view(final(out)@) == outgoing_view(old(out)@) + old(self)@.after_probe_due(now).1,
            final(self)@.wf(),
    {
        let ghost out0 = outgoing_view(out@);
        assert(out0 + Seq::<OutgoingView>::empty() =~= out0);
        let since = if now < self.last_probe_at { 0 } else { now - self.last_probe_at };
        if self.probe_started_at.is_some() || since < self.config.probe_interval_ms {
            return;
        }
        self.last_probe_at = now;
        let target = match self.state.next_probe_target() {
            Some(t) => t,
            None => return,
        };
        let message = match self.state.start_direct_ping(target.clone()) {
            Some(m) => m,
            None => return,
        };
        let addr = match self.state.member(target.as_str()) {
            Some(m) => m.addr.clone(),
            None => return,
        };
        self.send_message(addr, message, out);
        self.probe_started_at = Some(now);
        self.probe_phase = Some(ProbePhase::Direct);
    }

    /// The members' summaries, in id order, joined by commas: each is
    /// `id=Status@incarnation`.
    pub fn membership_summary(&self) -> (s: String)
        ensures
            s@ == summary(self@.swim.members),
    {
        let ms = self.state.members();
        let ghost mv = members_view(ms@);
        let mut s = String::new();
        let mut i: usize = 0;
        assert(mv.take(0) =~= Seq::<MemberView>::empty());
        while i < ms.len()
            invariant
                mv == members_view(ms@),
                i <= mv.len(),
                s@ == summary(mv.take(i as int)),
            decreases mv.len() - i,
        {
            let m = &ms[i];
            let ghost before = s@;
            if i > 0 {
                push_char(&mut s, ',');
            }
            push_str(&mut s, m.id.as_str());
            push_char(&mut s, '=');
            push_str(&mut s, status_label_str(m.status));
            push_char(&mut s, '@');
            push_decimal(&mut s, m.incarnation);
            proof {
                let t = mv.take(i + 1);
                assert(t.drop_last() =~= mv.take(i as int));
                assert(t.last() == m@);
                if i == 0 {
                    assert(s@ =~= member_summary(m@));
                    assert(t.len() == 1 && t[0] == m@);
                } else {
                    assert(s@ =~= before + seq![','] + member_summary(m@));
                }
            }
            i = i + 1;
        }
        assert(mv.take(i as int) =~= mv);
        s
    }

    fn log_line_if_due(&mut self, now: u64) -> (line: Option<String>)
        ensures
            (final(self)@, match line {
                Some(l) => Some(l@),
                None => None,
            }) == old(self)@.after_log_due(now),
    {
        let interval = match self.config.inspection_log_interval_ms {
            Some(iv) => iv,
            None => return None,
        };
        let since = if now < self.last_inspection_log_at { 0 } else { now - self.last_inspection_log_at };
        if since < interval {
            return None;
        }
        self.last_inspection_log_at = now;
        let mut line = String::new();
        push_str(&mut line, "membership ");
        push_str(&mut line, self.state.local_id());
        push_str(&mut line, ": ");
        let summary_text = self.membership_summary();
        push_str(&mut line, summary_text.as_str());
        Some(line)
    }

    /// Advances the timers to `now` (see `RuntimeView::after_tick`).
    pub fn tick(&mut self, now: u64) -> (r: TickOutput)
        requires
            old(self)@.wf(),
        ensures
            (final(self)@, outgoing_view(r.outgoing@), match r.log_line {
                Some(l) => Some(l@),
                None => None,
            }) == old(self)@.after_tick(now),
            final(self)@.wf(),
    {
        let mut out: Vec<Outgoing> = Vec::new();
        let ghost s0 = self@;
        let timed_out = match self.probe_started_at {
            None => false,
            Some(t) => {
                let since = if now < t { 0 } else { now - t };
                if since < self.config.probe_timeout_ms {
                    false
                } else {
                    match self.probe_phase {
                        Some(ProbePhase::Direct) => self.start_indirect_probe(now, &mut out),
                        Some(ProbePhase::Indirect) => {
                            self.end_probe_with_suspicion(now);
                            true
                        },
                        None => false,
                    }
                }
            },
        };
        assert(outgoing_view(out@) =~= Seq::<OutgoingView>::empty() + s0.after_probe_timeout(now).1);
        self.fail_timed_out_suspects(now);
        if !timed_out {
            self.start_probe_if_due(now, &mut out);
        } else {
            assert(outgoing_view(out@) =~= s0.after_probe_timeout(now).1 + Seq::<OutgoingView>::empty());
        }
        let log_line = self.log_line_if_due(now);
        TickOutput { outgoing: out, log_line }
    }

    /// Asks each of `peers` to let this node join, sending it this node's
    /// own entry.
    pub fn send_join_requests(&mut self, peers: &[String]) -> (out: Vec<Outgoing>)
        requires
            old(self)@.wf(),
        ensures
            (final(self)@, outgoing_view(out@)) == old(self)@.after_join_requests(super::state::strings_view(peers@)),
            final(self)@.wf(),
    {
        let mut out: Vec<Outgoing> = Vec::new();
        let ghost ps = super::state::strings_view(peers@);
        let ghost start = self@;
        proof { super::lemmas::lemma_lookup(start.swim.members, start.swim.local_id); }
        let local = match self.state.member(self.state.local_id()) {
            Some(m) => m.duplicate(),
            None => return out,
        };
        let mut i: usize = 0;
        assert(ps.take(0) =~= Seq::<Seq<char>>::empty());
        assert(outgoing_view(out@) =~= Seq::<OutgoingView>::empty());
        while i < peers.len()
            invariant
                ps == super::state::strings_view(peers@),
                i <= ps.len(),
                self@ == start.after_join_requests(ps.take(i as int)).0,
                outgoing_view(out@) == start.after_join_requests(ps.take(i as int)).1,
                self@.swim == start.swim,
                local@ == lookup(start.swim.members, start.swim.local_id)->Some_0,
                start.wf(),
            decreases ps.len() - i,
        {
            proof {
                assert(ps.take(i + 1).drop_last() =~= ps.take(i as int));
                assert(ps.take(i + 1).last() == ps[i as int]);
            }
            let ghost o_before = outgoing_view(out@);
            self.send_message(peers[i].clone(), MembershipMessage::Join(local.duplicate()), &mut out);
            i = i + 1;
        }
        assert(ps.take(i as int) =~= ps);
        out
    }

    /// Whether `handle_message` may be given `message` (see
    /// `message_in_range`).
    pub fn message_in_range(&self, message: &MembershipMessage) -> (r: bool)
        ensures
            r == message_in_range(self@.swim.local_id, message@),
    {
        match message {
            MembershipMessage::Join(m) | MembershipMessage::Update(m) => self.member_in_range(m),
            MembershipMessage::JoinAck(ms) => {
                let ghost mv = members_view(ms@);
                let mut i: usize = 0;
                while i < ms.len()
                    invariant
                        mv == members_view(ms@),
                        message@ == MessageView::JoinAck(mv),
                        i <= mv.len(),
                        forall|j: int| 0 <= j < i ==> #[trigger] member_in_range(self@.swim.local_id, mv[j]),
                    decreases mv.len() - i,
                {
                    if !self.member_in_range(&ms[i]) {
                        assert(message@ == MessageView::JoinAck(mv));
                        assert(!member_in_range(self@.swim.local_id, mv[i as int]));
                        return false;
                    }
                    i = i + 1;
                }
                assert(message@ == MessageView::JoinAck(mv));
                true
            },
            _ => true,
        }
    }

    fn member_in_range(&self, m: &Member) -> (r: bool)
        ensures
            r == member_in_range(self@.swim.local_id, m@),
    {
        !(str_eq(m.id.as_str(), self.state.local_id()) && m.status == MemberStatus::Suspect && m.incarnation
            == u64::MAX)
    }
}

} // verus!
