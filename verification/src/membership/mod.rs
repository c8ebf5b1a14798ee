//! SWIM membership: the member table, its merge rules, probe selection and
//! the payload codecs of membership messages.
//!
//! Membership conflict resolution, join handling, probe target selection
//! and ping bookkeeping are pure logic here; transport lives elsewhere.

use crate::text;
use crate::rng::xorshift;
use vstd::prelude::*;

pub mod laws;
pub mod lemmas;
pub mod runtime;
mod state;
pub mod wire;

pub use state::SwimState;

verus! {

#[derive(Debug, Clone, Copy, PartialEq, Eq, Structural)]
pub enum MemberStatus {
    Alive,
    Suspect,
    Failed,
    Left,
}

/// A cluster member. The address is kept as the text it is sent as
/// (`host:port`).
#[derive(Debug, Clone, PartialEq, Eq)]
pub struct Member {
    pub id: String,
    pub addr: String,
    pub status: MemberStatus,
    pub incarnation: u64,
}

pub ghost struct MemberView {
    pub id: Seq<char>,
    pub addr: Seq<char>,
    pub status: MemberStatus,
    pub incarnation: u64,
}

impl View for Member {
    type V = MemberView;

    open spec fn view(&self) -> MemberView {
        MemberView { id: self.id@, addr: self.addr@, status: self.status, incarnation: self.incarnation }
    }
}

impl Member {
    /// A copy of this member.
    pub fn duplicate(&self) -> (r: Member)
        ensures
            r@ == self@,
    {
        Member { id: self.id.clone(), addr: self.addr.clone(), status: self.status, incarnation: self.incarnation }
    }
}

/// The values of a sequence of members.
pub open spec fn members_view(v: Seq<Member>) -> Seq<MemberView> {
    v.map_values(|m: Member| m@)
}

#[derive(Debug, Clone, PartialEq, Eq)]
pub enum MembershipMessage {
    Join(Member),
    JoinAck(Vec<Member>),
    Ping { from: String, target: String },
    Ack { from: String, target: String },
    PingReq { from: String, target: String, relay: String },
    Update(Member),
}

pub ghost enum MessageView {
    Join(MemberView),
    JoinAck(Seq<MemberView>),
    Ping { from: Seq<char>, target: Seq<char> },
    Ack { from: Seq<char>, target: Seq<char> },
    PingReq { from: Seq<char>, target: Seq<char>, relay: Seq<char> },
    Update(MemberView),
}

impl View for MembershipMessage {
    type V = MessageView;

    open spec fn view(&self) -> MessageView {
        match self {
            MembershipMessage::Join(m) => MessageView::Join(m@),
            MembershipMessage::JoinAck(ms) => MessageView::JoinAck(members_view(ms@)),
            MembershipMessage::Ping { from, target } => MessageView::Ping { from: from@, target: target@ },
            MembershipMessage::Ack { from, target } => MessageView::Ack { from: from@, target: target@ },
            MembershipMessage::PingReq { from, target, relay } => MessageView::PingReq {
                from: from@,
                target: target@,
                relay: relay@,
            },
            MembershipMessage::Update(m) => MessageView::Update(m@),
        }
    }
}

#[derive(Debug, Clone, PartialEq, Eq, Structural)]
pub enum MembershipCodecError {
    InvalidOpcode(crate::protocol::Opcode),
    InvalidPayload,
    PayloadTooLarge,
}

impl MembershipCodecError {
    /// A short description of the error.
    pub fn message(&self) -> (m: String)
        ensures
            m@ == (match *self {
                MembershipCodecError::InvalidOpcode(op) => "invalid membership opcode: "@
                    + crate::protocol::opcode_name_spec(op),
                MembershipCodecError::InvalidPayload => "invalid membership payload"@,
                MembershipCodecError::PayloadTooLarge => "membership payload too large"@,
            }),
    {
        match self {
            MembershipCodecError::InvalidOpcode(op) => {
                let mut m = "invalid membership opcode: ".to_string();
                text::push_str(&mut m, crate::protocol::opcode_name(*op));
                m
            },
            MembershipCodecError::InvalidPayload => "invalid membership payload".to_string(),
            MembershipCodecError::PayloadTooLarge => "membership payload too large".to_string(),
        }
    }
}

#[derive(Debug, Clone, Copy, PartialEq, Eq, Structural)]
pub enum UpdateOutcome {
    Applied,
    Ignored,
    SelfIncarnationBumped,
}

#[derive(Debug, Clone, PartialEq, Eq)]
pub struct PendingPing {
    pub target: String,
}

/// Precedence of statuses at equal incarnation.
pub open spec fn status_rank(s: MemberStatus) -> nat {
    match s {
        MemberStatus::Alive => 0,
        MemberStatus::Suspect => 1,
        MemberStatus::Failed => 2,
        MemberStatus::Left => 3,
    }
}

/// An update is stale when it carries an older incarnation, or the same
/// incarnation with a status of no higher precedence.
pub open spec fn is_stale_update(existing: MemberView, update: MemberView) -> bool {
    update.incarnation < existing.incarnation || (update.incarnation == existing.incarnation
        && status_rank(update.status) <= status_rank(existing.status))
}

/// Members are held in strictly increasing id order.
pub open spec fn sorted_by_id(ms: Seq<MemberView>) -> bool {
    forall|i: int, j: int| 0 <= i < j < ms.len() ==> text::str_lt(#[trigger] ms[i].id, #[trigger] ms[j].id)
}

/// The number of leading members whose id is before `id`: where `id` is
/// or would be in id order.
pub open spec fn insert_pos(ms: Seq<MemberView>, id: Seq<char>) -> nat
    decreases ms.len(),
{
    if ms.len() == 0 {
        0
    } else if text::str_lt(ms[0].id, id) {
        1 + insert_pos(ms.drop_first(), id)
    } else {
        0
    }
}

/// The member with id `id`, if any.
pub open spec fn lookup(ms: Seq<MemberView>, id: Seq<char>) -> Option<MemberView> {
    let p = insert_pos(ms, id) as int;
    if p < ms.len() && ms[p].id == id {
        Some(ms[p])
    } else {
        None
    }
}

/// The members with `u` put in its place in id order, replacing the member
/// with the same id if there is one.
pub open spec fn upsert(ms: Seq<MemberView>, u: MemberView) -> Seq<MemberView> {
    let p = insert_pos(ms, u.id) as int;
    if p < ms.len() && ms[p].id == u.id {
        ms.update(p, u)
    } else {
        ms.insert(p, u)
    }
}

/// The members with the status of member `id` set, if there is one.
pub open spec fn with_status(ms: Seq<MemberView>, id: Seq<char>, status: MemberStatus) -> Seq<MemberView> {
    match lookup(ms, id) {
        Some(m) => upsert(ms, MemberView { status, ..m }),
        None => ms,
    }
}

pub open spec fn member_ids(ms: Seq<MemberView>) -> Seq<Seq<char>> {
    ms.map_values(|m: MemberView| m.id)
}

/// Members that may be probed: neither the local node nor failed.
pub open spec fn probe_candidate(local_id: Seq<char>) -> spec_fn(MemberView) -> bool {
    |m: MemberView| m.id != local_id && m.status != MemberStatus::Failed
}

/// Members that may relay a probe of `target`: probeable and not the target.
pub open spec fn relay_candidate(local_id: Seq<char>, target: Seq<char>) -> spec_fn(MemberView) -> bool {
    |m: MemberView| m.id != local_id && m.id != target && m.status != MemberStatus::Failed
}

/// An index below `upper` drawn from the generator, and the next state.
pub open spec fn random_index(rng: u64, upper: usize) -> (usize, u64) {
    let r = xorshift(rng);
    (((r as usize) % upper) as usize, r)
}

/// The elements swapped at index `i` and `j`.
pub open spec fn swapped<T>(v: Seq<T>, i: int, j: int) -> Seq<T> {
    v.update(i, v[j]).update(j, v[i])
}

/// Fisher–Yates from index `i` down to 1: at each index a random index at
/// or below it is drawn and the two are swapped.
pub open spec fn shuffled(v: Seq<Seq<char>>, rng: u64, i: nat) -> (Seq<Seq<char>>, u64)
    decreases i,
{
    if i == 0 || i >= v.len() {
        (v, rng)
    } else {
        let (j, next) = random_index(rng, (i + 1) as usize);
        shuffled(swapped(v, i as int, j as int), next, (i - 1) as nat)
    }
}

/// The membership state of a node.
pub ghost struct SwimView {
    pub local_id: Seq<char>,
    pub members: Seq<MemberView>,
    pub pending: Option<Seq<char>>,
    pub rng: u64,
}

impl SwimView {
    /// Members are in id order and the local node is one of them.
    pub open spec fn wf(self) -> bool {
        &&& sorted_by_id(self.members)
        &&& lookup(self.members, self.local_id) is Some
    }

    /// `id` names a member other than this node that has not failed.
    pub open spec fn probeable(self, id: Seq<char>) -> bool {
        match lookup(self.members, id) {
            Some(m) => id != self.local_id && m.status != MemberStatus::Failed,
            None => false,
        }
    }

    /// Refuting a suspicion of this node: unless it is older than the local
    /// incarnation, the local member becomes alive one incarnation above it.
    pub open spec fn after_refute(self, suspect_incarnation: u64) -> (Self, UpdateOutcome) {
        let local = lookup(self.members, self.local_id)->Some_0;
        if suspect_incarnation < local.incarnation {
            (self, UpdateOutcome::Ignored)
        } else {
            (
                SwimView {
                    members: upsert(
                        self.members,
                        MemberView {
                            incarnation: (suspect_incarnation + 1) as u64,
                            status: MemberStatus::Alive,
                            ..local
                        },
                    ),
                    ..self
                },
                UpdateOutcome::SelfIncarnationBumped,
            )
        }
    }

    /// Merging a membership update.
    pub open spec fn after_update(self, u: MemberView) -> (Self, UpdateOutcome) {
        if u.id == self.local_id && u.status == MemberStatus::Suspect {
            self.after_refute(u.incarnation)
        } else {
            match lookup(self.members, u.id) {
                Some(existing) if is_stale_update(existing, u) => (self, UpdateOutcome::Ignored),
                _ => (SwimView { members: upsert(self.members, u), ..self }, UpdateOutcome::Applied),
            }
        }
    }

    /// Ids that may be probed, in id order.
    pub open spec fn probe_candidates(self) -> Seq<Seq<char>> {
        member_ids(self.members.filter(probe_candidate(self.local_id)))
    }

    /// Ids that may relay a probe of `target`, in id order.
    pub open spec fn relay_candidates(self, target: Seq<char>) -> Seq<Seq<char>> {
        member_ids(self.members.filter(relay_candidate(self.local_id, target)))
    }

    /// Picking the next probe target at random among the candidates.
    pub open spec fn after_probe_target(self) -> (Self, Option<Seq<char>>) {
        let c = self.probe_candidates();
        if c.len() == 0 {
            (self, None)
        } else {
            let (i, next) = random_index(self.rng, c.len() as usize);
            (SwimView { rng: next, ..self }, Some(c[i as int]))
        }
    }

    /// Starting a direct probe of `target`, which becomes the pending ping.
    pub open spec fn after_direct_ping(self, target: Seq<char>) -> (Self, Option<MessageView>) {
        if !self.probeable(target) {
            (self, None)
        } else {
            (
                SwimView { pending: Some(target), ..self },
                Some(MessageView::Ping { from: self.local_id, target }),
            )
        }
    }

    /// An indirect probe of `target` through `relay`, when both are
    /// probeable and distinct.
    pub open spec fn indirect_ping(self, target: Seq<char>, relay: Seq<char>) -> Option<MessageView> {
        if !self.probeable(target) || !self.probeable(relay) || target == relay {
            None
        } else {
            Some(MessageView::PingReq { from: self.local_id, target, relay })
        }
    }

    /// Up to `limit` relays for a probe of `target`, in random order.
    pub open spec fn after_relays(self, target: Seq<char>, limit: usize) -> (Self, Seq<Seq<char>>) {
        let c = self.relay_candidates(target);
        let (s, next) = shuffled(c, self.rng, if c.len() == 0 { 0 } else { (c.len() - 1) as nat });
        (SwimView { rng: next, ..self }, s.take(if limit < s.len() { limit as int } else { s.len() as int }))
    }

    /// An acknowledgement from the pending target clears the ping and marks
    /// that member alive.
    pub open spec fn after_ack(self, from: Seq<char>) -> (Self, bool) {
        if self.pending == Some(from) {
            (
                SwimView {
                    pending: None,
                    members: with_status(self.members, from, MemberStatus::Alive),
                    ..self
                },
                true,
            )
        } else {
            (self, false)
        }
    }

    /// A missed acknowledgement: the pending ping is dropped and its target,
    /// unless failed or gone, becomes suspect.
    pub open spec fn after_suspect_pending(self) -> (Self, Option<MemberView>) {
        match self.pending {
            None => (self, None),
            Some(target) => {
                let cleared = SwimView { pending: None, ..self };
                match lookup(self.members, target) {
                    None => (cleared, None),
                    Some(m) => if m.status == MemberStatus::Failed {
                        (cleared, None)
                    } else {
                        (
                            SwimView {
                                members: with_status(self.members, target, MemberStatus::Suspect),
                                ..cleared
                            },
                            Some(MemberView { status: MemberStatus::Suspect, ..m }),
                        )
                    },
                }
            },
        }
    }

    /// Marking member `id`, if known, failed.
    pub open spec fn after_mark_failed(self, id: Seq<char>) -> (Self, Option<MemberView>) {
        match lookup(self.members, id) {
            None => (self, None),
            Some(m) => (
                SwimView { members: with_status(self.members, id, MemberStatus::Failed), ..self },
                Some(MemberView { status: MemberStatus::Failed, ..m }),
            ),
        }
    }
}

} // verus!
