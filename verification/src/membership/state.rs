//! The executable SWIM membership table.

use super::lemmas::{lemma_insert_pos, lemma_lookup, lemma_sorted_pos, lemma_upsert, lemma_with_status};
use super::{
    insert_pos, lookup, member_ids, members_view, probe_candidate, relay_candidate, shuffled, swapped,
    upsert, with_status, Member, MemberStatus, MemberView, MembershipMessage, PendingPing,
    SwimView, UpdateOutcome,
};
use crate::rng::{fnv, fnv_fold, xorshift, xorshift_next, FNV_OFFSET};
use crate::text::{self, compare_str, str_eq, Order};
use vstd::prelude::*;

verus! {

/// The generator seed of a node: FNV-1a of its id and address text, never 0.
pub open spec fn seed_of(local_id: Seq<char>, local_addr: Seq<char>) -> u64 {
    let h = fnv(FNV_OFFSET, vstd::utf8::encode_utf8(local_id) + vstd::utf8::encode_utf8(local_addr));
    if h < 1 { 1 } else { h }
}

/// The values of a sequence of strings.
pub open spec fn strings_view(v: Seq<String>) -> Seq<Seq<char>> {
    v.map_values(|s: String| s@)
}

/// Membership state of one node: the member table in id order, the pending
/// direct ping, and the state of the probe-order generator.
#[derive(Debug, Clone, PartialEq, Eq)]
pub struct SwimState {
    local_id: String,
    members: Vec<Member>,
    pending_ping: Option<PendingPing>,
    rng_state: u64,
}

impl View for SwimState {
    type V = SwimView;

    closed spec fn view(&self) -> SwimView {
        SwimView {
            local_id: self.local_id@,
            members: members_view(self.members@),
            pending: match self.pending_ping {
                Some(p) => Some(p.target@),
                None => None,
            },
            rng: self.rng_state,
        }
    }
}

fn seed_from(local_id: &str, local_addr: &str) -> (r: u64)
    ensures
        r == seed_of(local_id@, local_addr@),
{
    let a = local_id.as_bytes();
    let b = local_addr.as_bytes();
    let h = fnv_fold(FNV_OFFSET, a, Ghost(b@));
    let h = fnv_fold(h, b, Ghost(Seq::empty()));
    assert(b@ + Seq::<u8>::empty() =~= b@);
    if h < 1 { 1 } else { h }
}

impl SwimState {
    /// A table holding only this node, alive at incarnation 0.
    pub fn new(local_id: String, local_addr: String) -> (s: Self)
        ensures
            s@.wf(),
            s@ == (SwimView {
                local_id: local_id@,
                members: seq![MemberView { id: local_id@, addr: local_addr@, status: MemberStatus::Alive, incarnation: 0 }],
                pending: None,
                rng: seed_of(local_id@, local_addr@),
            }),
    {
        let seed = seed_from(local_id.as_str(), local_addr.as_str());
        let local = Member { id: local_id.clone(), addr: local_addr, status: MemberStatus::Alive, incarnation: 0 };
        let mut members: Vec<Member> = Vec::new();
        members.push(local);
        let s = SwimState { local_id, members, pending_ping: None, rng_state: seed };
        proof {
            assert(s@.members =~= seq![local@]);
            text::lemma_str_lt_order(local@.id, local@.id, local@.id);
            assert(insert_pos(s@.members, s@.local_id) == 0);
        }
        s
    }

    /// As `new`, with the generator seeded by `seed` (at least 1).
    pub fn new_with_seed(local_id: String, local_addr: String, seed: u64) -> (s: Self)
        ensures
            s@.wf(),
            s@ == (SwimView {
                local_id: local_id@,
                members: seq![MemberView { id: local_id@, addr: local_addr@, status: MemberStatus::Alive, incarnation: 0 }],
                pending: None,
                rng: if seed < 1 { 1 } else { seed },
            }),
    {
        let mut s = SwimState::new(local_id, local_addr);
        s.rng_state = if seed < 1 { 1 } else { seed };
        s
    }

    pub fn local_id(&self) -> (r: &str)
        ensures
            r@ == self@.local_id,
    {
        self.local_id.as_str()
    }

    /// All members, in id order.
    pub fn members(&self) -> (r: &[Member])
        ensures
            members_view(r@) == self@.members,
    {
        self.members.as_slice()
    }

    /// Where `id` is or would be in the table, and whether it is there.
    fn position(&self, id: &str) -> (r: (usize, bool))
        ensures
            r.0 == insert_pos(self@.members, id@),
            r.1 == (r.0 < self@.members.len() && self@.members[r.0 as int].id == id@),
    {
        let ghost ms = self@.members;
        let mut i: usize = 0;
        assert(ms.skip(0) =~= ms);
        while i < self.members.len()
            invariant
                ms == self@.members,
                i <= ms.len(),
                insert_pos(ms, id@) == i + insert_pos(ms.skip(i as int), id@),
            decreases ms.len() - i,
        {
            assert(ms.skip(i as int)[0] == ms[i as int]);
            match compare_str(self.members[i].id.as_str(), id) {
                Order::Less => {
                    assert(ms.skip(i as int).drop_first() =~= ms.skip(i + 1));
                    i = i + 1;
                },
                Order::Equal => {
                    return (i, true);
                },
                Order::Greater => {
                    proof { text::lemma_str_lt_order(id@, ms[i as int].id, id@); }
                    return (i, false);
                },
            }
        }
        assert(ms.skip(i as int).len() == 0);
        (i, false)
    }

    /// The member with id `id`, if known.
    pub fn member(&self, id: &str) -> (r: Option<&Member>)
        ensures
            match lookup(self@.members, id@) {
                Some(m) => r matches Some(x) && x@ == m,
                None => r is None,
            },
    {
        let (p, found) = self.position(id);
        if found {
            Some(&self.members[p])
        } else {
            None
        }
    }

    pub fn pending_ping(&self) -> (r: Option<&PendingPing>)
        ensures
            match self@.pending {
                Some(t) => r matches Some(p) && p.target@ == t,
                None => r is None,
            },
    {
        match &self.pending_ping {
            Some(p) => Some(p),
            None => None,
        }
    }

    /// Puts `u` in its place in id order, replacing the member with its id.
    fn put(&mut self, u: Member)
        requires
            old(self)@.wf(),
        ensures
            final(self)@ == (SwimView { members: upsert(old(self)@.members, u@), ..old(self)@ }),
    {
        let (p, found) = self.position(u.id.as_str());
        let ghost m = u@;
        if found {
            self.members.set(p, u);
            assert(self@.members =~= upsert(old(self)@.members, m));
        } else {
            proof { lemma_insert_pos(old(self)@.members, m.id); }
            self.members.insert(p, u);
            assert(self@.members =~= upsert(old(self)@.members, m));
        }
    }

    /// Sets the status of the member at `p` and returns the updated member.
    fn set_status_at(&mut self, p: usize, status: MemberStatus) -> (r: Member)
        requires
            old(self)@.wf(),
            p < old(self)@.members.len(),
        ensures
            r@ == (MemberView { status, ..old(self)@.members[p as int] }),
            final(self)@ == (SwimView {
                members: with_status(old(self)@.members, old(self)@.members[p as int].id, status),
                ..old(self)@
            }),
            final(self)@.wf(),
    {
        let ghost ms = old(self)@.members;
        proof {
            lemma_lookup(ms, ms[p as int].id);
            lemma_with_status(ms, ms[p as int].id, status);
            lemma_lookup(ms, self@.local_id);
        }
        let mut m = self.members[p].duplicate();
        m.status = status;
        let r = m.duplicate();
        self.put(m);
        proof {
            lemma_with_status(ms, ms[p as int].id, status);
            let n = self@.members;
            lemma_lookup(n, self@.local_id);
            if ms[p as int].id != self@.local_id {
                assert(lookup(n, self@.local_id) == lookup(ms, self@.local_id));
            }
        }
        r
    }

    /// Merges a membership update. A suspicion of this node is refuted by
    /// raising its incarnation; otherwise a stale update is ignored and any
    /// other replaces what is known of that member.
    pub fn apply_update(&mut self, update: Member) -> (r: UpdateOutcome)
        requires
            old(self)@.wf(),
            update@.id == old(self)@.local_id && update.status == MemberStatus::Suspect ==> update.incarnation
                < u64::MAX,
        ensures
            final(self)@.wf(),
            (final(self)@, r) == old(self)@.after_update(update@),
    {
        let ghost s = self@;
        proof { lemma_lookup(s.members, s.local_id); }
        if str_eq(update.id.as_str(), self.local_id.as_str()) && update.status == MemberStatus::Suspect {
            return self.refute_self_suspect(update.incarnation);
        }
        let (p, found) = self.position(update.id.as_str());
        proof { lemma_lookup(s.members, update@.id); lemma_sorted_pos(s.members, update@.id); }
        if found {
            let existing = &self.members[p];
            if update.incarnation < existing.incarnation || (update.incarnation == existing.incarnation
                && status_rank(update.status) <= status_rank(existing.status)) {
                return UpdateOutcome::Ignored;
            }
        }
        let ghost u = update@;
        self.put(update);
        proof {
            lemma_upsert(s.members, u);
            if u.id != s.local_id {
                assert(lookup(upsert(s.members, u), s.local_id) == lookup(s.members, s.local_id));
            }
        }
        UpdateOutcome::Applied
    }

    fn refute_self_suspect(&mut self, suspect_incarnation: u64) -> (r: UpdateOutcome)
        requires
            old(self)@.wf(),
            suspect_incarnation < u64::MAX,
        ensures
            final(self)@.wf(),
            (final(self)@, r) == old(self)@.after_refute(suspect_incarnation),
    {
        let ghost s = self@;
        let (p, found) = self.position(self.local_id.as_str());
        proof {
            lemma_lookup(s.members, s.local_id);
        }
        let mut local = self.members[p].duplicate();
        if suspect_incarnation < local.incarnation {
            return UpdateOutcome::Ignored;
        }
        local.incarnation = suspect_incarnation + 1;
        local.status = MemberStatus::Alive;
        let ghost u = local@;
        self.put(local);
        proof {
            lemma_upsert(s.members, u);
        }
        UpdateOutcome::SelfIncarnationBumped
    }

    /// Merges a joining member and returns every known member, in id order.
    pub fn handle_join(&mut self, member: Member) -> (r: Vec<Member>)
        requires
            old(self)@.wf(),
            member@.id == old(self)@.local_id && member.status == MemberStatus::Suspect ==> member.incarnation
                < u64::MAX,
        ensures
            final(self)@.wf(),
            final(self)@ == old(self)@.after_update(member@).0,
            members_view(r@) == final(self)@.members,
    {
        self.apply_update(member);
        let mut r: Vec<Member> = Vec::new();
        let mut i: usize = 0;
        while i < self.members.len()
            invariant
                i <= self@.members.len(),
                members_view(r@) == self@.members.take(i as int),
            decreases self@.members.len() - i,
        {
            let m = self.members[i].duplicate();
            let ghost before = r@;
            r.push(m);
            assert(members_view(r@) =~= members_view(before).push(self@.members[i as int]));
            assert(self@.members.take(i + 1) =~= self@.members.take(i as int).push(self@.members[i as int]));
            i = i + 1;
        }
        assert(self@.members.take(i as int) =~= self@.members);
        r
    }

    fn next_random_u64(&mut self) -> (r: u64)
        ensures
            r == xorshift(old(self)@.rng),
            final(self)@ == (SwimView { rng: r, ..old(self)@ }),
    {
        self.rng_state = xorshift_next(self.rng_state);
        self.rng_state
    }

    fn next_random_index(&mut self, upper_bound: usize) -> (r: usize)
        requires
            upper_bound > 0,
        ensures
            (r, final(self)@.rng) == super::random_index(old(self)@.rng, upper_bound),
            final(self)@ == (SwimView { rng: final(self)@.rng, ..old(self)@ }),
            r < upper_bound,
    {
        (self.next_random_u64() as usize) % upper_bound
    }

    /// Ids of members satisfying `probe_candidate` (`target` is `None`) or
    /// `relay_candidate` for `target`, in id order.
    fn candidates(&self, target: Option<&str>) -> (r: Vec<String>)
        ensures
            target is None ==> strings_view(r@) == self@.probe_candidates(),
            target matches Some(t) ==> strings_view(r@) == self@.relay_candidates(t@),
    {
        let ghost ms = self@.members;
        let ghost pred = match target {
            None => probe_candidate(self@.local_id),
            Some(t) => relay_candidate(self@.local_id, t@),
        };
        let mut r: Vec<String> = Vec::new();
        let mut i: usize = 0;
        assert(ms.take(0).filter(pred) =~= Seq::<MemberView>::empty()) by {
            reveal(Seq::filter);
        }
        assert(member_ids(Seq::<MemberView>::empty()) =~= Seq::<Seq<char>>::empty());
        while i < self.members.len()
            invariant
                ms == self@.members,
                pred == (match target {
                    None => probe_candidate(self@.local_id),
                    Some(t) => relay_candidate(self@.local_id, t@),
                }),
                i <= ms.len(),
                strings_view(r@) == member_ids(ms.take(i as int).filter(pred)),
            decreases ms.len() - i,
        {
            let m = &self.members[i];
            let keep = !str_eq(m.id.as_str(), self.local_id.as_str()) && m.status != MemberStatus::Failed && match target {
                None => true,
                Some(t) => !str_eq(m.id.as_str(), t),
            };
            let ghost before = ms.take(i as int).filter(pred);
            proof {
                reveal(Seq::filter);
                assert(ms.take(i + 1).drop_last() =~= ms.take(i as int));
                assert(ms.take(i + 1).last() == ms[i as int]);
                assert(keep == pred(ms[i as int]));
            }
            if keep {
                let id = m.id.clone();
                let ghost r_before = r@;
                assert(id@ == ms[i as int].id);
                r.push(id);
                assert(strings_view(r@) =~= strings_view(r_before).push(id@));
                assert(strings_view(r@) =~= member_ids(before.push(ms[i as int])));
            }
            i = i + 1;
        }
        assert(ms.take(i as int) =~= ms);
        r
    }

    /// Picks the next member to probe at random among the members that are
    /// neither this node nor failed.
    pub fn next_probe_target(&mut self) -> (r: Option<String>)
        requires
            old(self)@.wf(),
        ensures
            final(self)@.wf(),
            (final(self)@, match r {
                Some(s) => Some(s@),
                None => None,
            }) == old(self)@.after_probe_target(),
    {
        let candidates = self.candidates(None);
        if candidates.len() == 0 {
            return None;
        }
        let index = self.next_random_index(candidates.len());
        Some(candidates[index].clone())
    }

    /// Whether `target` names a member other than this node that has not
    /// failed.
    fn is_probeable(&self, target: &str) -> (r: bool)
        ensures
            r == self@.probeable(target@),
    {
        let (p, found) = self.position(target);
        found && !str_eq(target, self.local_id.as_str()) && self.members[p].status != MemberStatus::Failed
    }

    /// Starts a direct probe of `target`: it becomes the pending ping and a
    /// `Ping` to send is returned. `None` when `target` is not probeable.
    pub fn start_direct_ping(&mut self, target: String) -> (r: Option<MembershipMessage>)
        requires
            old(self)@.wf(),
        ensures
            final(self)@.wf(),
            (final(self)@, match r {
                Some(m) => Some(m@),
                None => None,
            }) == old(self)@.after_direct_ping(target@),
    {
        if !self.is_probeable(target.as_str()) {
            return None;
        }
        self.pending_ping = Some(PendingPing { target: target.clone() });
        Some(MembershipMessage::Ping { from: self.local_id.clone(), target })
    }

    /// A `PingReq` asking `relay` to probe `target`; `None` unless both are
    /// probeable and distinct.
    pub fn start_indirect_ping(&self, target: String, relay: String) -> (r: Option<MembershipMessage>)
        ensures
            match r {
                Some(m) => Some(m@),
                None => None,
            } == self@.indirect_ping(target@, relay@),
    {
        if !self.is_probeable(target.as_str()) || !self.is_probeable(relay.as_str()) || str_eq(
            target.as_str(),
            relay.as_str(),
        ) {
            return None;
        }
        Some(MembershipMessage::PingReq { from: self.local_id.clone(), target, relay })
    }

    fn shuffle(&mut self, values: &mut Vec<String>)
        ensures
            (strings_view(final(values)@), final(self)@.rng) == shuffled(
                strings_view(old(values)@),
                old(self)@.rng,
                if old(values)@.len() == 0 { 0 } else { (old(values)@.len() - 1) as nat },
            ),
            final(self)@ == (SwimView { rng: final(self)@.rng, ..old(self)@ }),
    {
        if values.len() < 2 {
            return;
        }
        let mut index: usize = values.len() - 1;
        while index > 0
            invariant
                values@.len() == old(values)@.len(),
                index < values@.len(),
                self@ == (SwimView { rng: self@.rng, ..old(self)@ }),
                shuffled(
                    strings_view(old(values)@),
                    old(self)@.rng,
                    (old(values)@.len() - 1) as nat,
                ) == shuffled(strings_view(values@), self@.rng, index as nat),
            decreases index,
        {
            let ghost v = strings_view(values@);
            let ghost rng = self@.rng;
            let n = values.len();
            let swap_index = self.next_random_index(index + 1);
            let a = values[index].clone();
            let b = values[swap_index].clone();
            values.set(index, b);
            values.set(swap_index, a);
            assert(strings_view(values@) =~= swapped(v, index as int, swap_index as int));
            index = index - 1;
        }
    }

    /// Up to `limit` members to relay a probe of `target`: members other than
    /// this node and `target` that have not failed, in random order.
    pub fn indirect_ping_relays(&mut self, target: &str, limit: usize) -> (r: Vec<String>)
        requires
            old(self)@.wf(),
        ensures
            final(self)@.wf(),
            (final(self)@, strings_view(r@)) == old(self)@.after_relays(target@, limit),
    {
        let mut relays = self.candidates(Some(target));
        self.shuffle(&mut relays);
        let ghost s = strings_view(relays@);
        relays.truncate(limit);
        assert(strings_view(relays@) =~= s.take(if limit < s.len() { limit as int } else { s.len() as int }));
        relays
    }

    /// An acknowledgement from `from`: if it is the pending target, the
    /// pending ping is cleared, the member marked alive, and `true` returned.
    pub fn handle_ack(&mut self, from: &str) -> (r: bool)
        requires
            old(self)@.wf(),
        ensures
            final(self)@.wf(),
            (final(self)@, r) == old(self)@.after_ack(from@),
    {
        let matches = match &self.pending_ping {
            None => false,
            Some(p) => str_eq(p.target.as_str(), from),
        };
        if !matches {
            return false;
        }
        self.pending_ping = None;
        let (p, found) = self.position(from);
        proof { lemma_lookup(self@.members, from@); lemma_with_status(self@.members, from@, MemberStatus::Alive); }
        if found {
            self.set_status_at(p, MemberStatus::Alive);
        }
        true
    }

    /// A missed acknowledgement: clears the pending ping and marks its
    /// target suspect, returning the updated member; `None` when there was
    /// no pending ping or the target is unknown or failed.
    pub fn mark_pending_ping_suspect(&mut self) -> (r: Option<Member>)
        requires
            old(self)@.wf(),
        ensures
            final(self)@.wf(),
            (final(self)@, match r {
                Some(m) => Some(m@),
                None => None,
            }) == old(self)@.after_suspect_pending(),
    {
        let target = match &self.pending_ping {
            Some(p) => p.target.clone(),
            None => return None,
        };
        self.pending_ping = None;
        let (p, found) = self.position(target.as_str());
        proof { lemma_lookup(self@.members, target@); }
        if !found {
            return None;
        }
        if self.members[p].status == MemberStatus::Failed {
            return None;
        }
        Some(self.set_status_at(p, MemberStatus::Suspect))
    }

    /// Marks member `id` failed and returns it; `None` when unknown.
    pub fn mark_failed(&mut self, id: &str) -> (r: Option<Member>)
        requires
            old(self)@.wf(),
        ensures
            final(self)@.wf(),
            (final(self)@, match r {
                Some(m) => Some(m@),
                None => None,
            }) == old(self)@.after_mark_failed(id@),
    {
        let (p, found) = self.position(id);
        proof { lemma_lookup(self@.members, id@); }
        if !found {
            return None;
        }
        Some(self.set_status_at(p, MemberStatus::Failed))
    }
}

fn status_rank(s: MemberStatus) -> (r: u8)
    ensures
        r == super::status_rank(s),
{
    match s {
        MemberStatus::Alive => 0,
        MemberStatus::Suspect => 1,
        MemberStatus::Failed => 2,
        MemberStatus::Left => 3,
    }
}

} // verus!
