//! Properties of SWIM membership that span its transitions.

use super::lemmas::{lemma_lookup, lemma_upsert};
use super::runtime::{not_about, piggyback, OutgoingView, ProbePhase, QueuedView, RuntimeView};
use super::MessageView;
use super::{
    is_stale_update, lookup, MemberStatus, MemberView, SwimView, UpdateOutcome,
};
use vstd::prelude::*;

verus! {

/// A stale update (older incarnation, or same incarnation without a status
/// of higher precedence) about another member changes nothing.
pub proof fn lemma_stale_update_ignored(s: SwimView, u: MemberView)
    requires
        s.wf(),
        !(u.id == s.local_id && u.status == MemberStatus::Suspect),
        lookup(s.members, u.id) matches Some(e) && is_stale_update(e, u),
    ensures
        s.after_update(u) == (s, UpdateOutcome::Ignored),
{
}

/// An update that is not stale becomes what is known of that member, and
/// nothing else changes.
pub proof fn lemma_fresh_update_wins(s: SwimView, u: MemberView)
    requires
        s.wf(),
        !(u.id == s.local_id && u.status == MemberStatus::Suspect),
        !(lookup(s.members, u.id) matches Some(e) && is_stale_update(e, u)),
    ensures
        s.after_update(u).1 == UpdateOutcome::Applied,
        lookup(s.after_update(u).0.members, u.id) == Some(u),
        forall|x: Seq<char>| x != u.id ==> lookup(#[trigger] s.after_update(u).0.members, x) == lookup(s.members, x),
        s.after_update(u).0.wf(),
{
    lemma_upsert(s.members, u);
    if u.id == s.local_id {
        assert(lookup(s.after_update(u).0.members, s.local_id) is Some);
    } else {
        assert(lookup(s.after_update(u).0.members, s.local_id) == lookup(s.members, s.local_id));
    }
}

/// Applying the same update twice: the second time it is ignored and the
/// state stays as the first left it.
pub proof fn lemma_update_idempotent(s: SwimView, u: MemberView)
    requires
        s.wf(),
        !(u.id == s.local_id && u.status == MemberStatus::Suspect),
    ensures
        s.after_update(u).0.after_update(u) == (s.after_update(u).0, UpdateOutcome::Ignored),
{
    let t = s.after_update(u).0;
    if lookup(s.members, u.id) matches Some(e) && is_stale_update(e, u) {
        lemma_stale_update_ignored(s, u);
    } else {
        lemma_fresh_update_wins(s, u);
        assert(lookup(t.members, u.id) == Some(u));
        assert(is_stale_update(u, u));
    }
}

/// A suspicion of this node at or above its incarnation is refuted: the
/// node stays alive one incarnation above the suspicion.
pub proof fn lemma_suspicion_refuted(s: SwimView, u: MemberView)
    requires
        s.wf(),
        u.id == s.local_id,
        u.status == MemberStatus::Suspect,
        u.incarnation < u64::MAX,
        u.incarnation >= lookup(s.members, s.local_id)->Some_0.incarnation,
    ensures
        s.after_update(u).1 == UpdateOutcome::SelfIncarnationBumped,
        lookup(s.after_update(u).0.members, s.local_id) matches Some(m) && m.status == MemberStatus::Alive
            && m.incarnation == u.incarnation + 1,
        s.after_update(u).0.wf(),
{
    let local = lookup(s.members, s.local_id)->Some_0;
    lemma_lookup(s.members, s.local_id);
    lemma_upsert(
        s.members,
        MemberView { incarnation: (u.incarnation + 1) as u64, status: MemberStatus::Alive, ..local },
    );
}

/// A probe target is a member that is neither this node nor failed.
pub proof fn lemma_probe_target_probeable(s: SwimView)
    requires
        s.wf(),
    ensures
        s.after_probe_target().1 matches Some(t) ==> (exists|i: int|
            0 <= i < s.members.len() && #[trigger] s.members[i].id == t && s.members[i].status
                != MemberStatus::Failed) && t != s.local_id,
{
    let c = s.probe_candidates();
    if c.len() > 0 {
        let (i, next) = super::random_index(s.rng, c.len() as usize);
        let f = s.members.filter(super::probe_candidate(s.local_id));
        s.members.filter_lemma(super::probe_candidate(s.local_id));
        assert(c[i as int] == f[i as int].id);
        assert(f.contains(f[i as int]));
        s.members.lemma_filter_contains_rev(super::probe_candidate(s.local_id), f[i as int]);
        let k = choose|k: int| 0 <= k < s.members.len() && s.members[k] == f[i as int];
        assert(s.members[k].id == c[i as int]);
    }
}

/// Relays for a probe of `target` are neither this node, nor the target,
/// nor failed members, and there are at most `limit` of them.
pub proof fn lemma_relays_are_candidates(s: SwimView, target: Seq<char>, limit: usize)
    requires
        s.wf(),
    ensures
        s.after_relays(target, limit).1.len() <= limit,
        forall|j: int| 0 <= j < s.after_relays(target, limit).1.len() ==> {
            let r = #[trigger] s.after_relays(target, limit).1[j];
            &&& r != s.local_id
            &&& r != target
        },
{
    let c = s.relay_candidates(target);
    let f = s.members.filter(super::relay_candidate(s.local_id, target));
    s.members.filter_lemma(super::relay_candidate(s.local_id, target));
    let n = if c.len() == 0 { 0 } else { (c.len() - 1) as nat };
    lemma_shuffled_permutes(c, s.rng, n);
    let (sh, next) = super::shuffled(c, s.rng, n);
    assert forall|j: int| 0 <= j < s.after_relays(target, limit).1.len() implies {
        let r = #[trigger] s.after_relays(target, limit).1[j];
        &&& r != s.local_id
        &&& r != target
    } by {
        let r = s.after_relays(target, limit).1[j];
        assert(r == sh[j]);
        assert(c.contains(r));
        let k = choose|k: int| 0 <= k < c.len() && c[k] == r;
        assert(c[k] == f[k].id);
    }
}

/// Shuffling keeps the same elements.
pub proof fn lemma_shuffled_permutes(v: Seq<Seq<char>>, rng: u64, i: nat)
    ensures
        super::shuffled(v, rng, i).0.len() == v.len(),
        forall|j: int| 0 <= j < v.len() ==> v.contains(#[trigger] super::shuffled(v, rng, i).0[j]),
    decreases i,
{
    if i == 0 || i >= v.len() {
    } else {
        let (j, next) = super::random_index(rng, (i + 1) as usize);
        let w = super::swapped(v, i as int, j as int);
        lemma_shuffled_permutes(w, next, (i - 1) as nat);
        assert forall|k: int| 0 <= k < v.len() implies v.contains(#[trigger] super::shuffled(v, rng, i).0[k]) by {
            let x = super::shuffled(v, rng, i).0[k];
            assert(w.contains(x));
            let m = choose|m: int| 0 <= m < w.len() && w[m] == x;
            if m == i {
                assert(v[j as int] == x);
            } else if m == j {
                assert(v[i as int] == x);
            } else {
                assert(v[m] == x);
            }
        }
    }
}

/// The dissemination queue holds at most one update per member: queueing
/// an update replaces any older one about the same member.
pub proof fn lemma_queue_coalesces(v: RuntimeView, m: MemberView)
    requires
        m.id != v.swim.local_id,
        v.config.dissemination_transmissions > 0,
    ensures
        v.queued(m).queue.last() == (QueuedView { member: m, remaining: v.config.dissemination_transmissions }),
        forall|i: int| 0 <= i < v.queued(m).queue.len() - 1 ==> (#[trigger] v.queued(m).queue[i]).member.id != m.id,
{
    let f = v.queue.filter(not_about(m.id));
    v.queue.filter_lemma(not_about(m.id));
    assert forall|i: int| 0 <= i < v.queued(m).queue.len() - 1 implies (#[trigger] v.queued(m).queue[i]).member.id != m.id by {
        assert(v.queued(m).queue[i] == f[i]);
    }
}

/// Piggybacking sends at most the requested number of updates.
pub proof fn lemma_piggyback_bounded(queue: Seq<QueuedView>, n: nat)
    ensures
        piggyback(queue, n).1.len() <= n,
    decreases n,
{
    if n > 0 && queue.len() > 0 {
        let u = queue[0];
        let left = if u.remaining < 1 { 0 } else { (u.remaining - 1) as usize };
        let q2 = if left > 0 {
            queue.drop_first().push(QueuedView { member: u.member, remaining: left })
        } else {
            queue.drop_first()
        };
        lemma_piggyback_bounded(q2, (n - 1) as nat);
    }
}

/// Sending a message adds at most the piggyback limit of updates to it.
pub proof fn lemma_send_bounded(v: RuntimeView, addr: Seq<char>, msg: MessageView)
    ensures
        v.after_send(addr, msg).1.len() <= 1 + v.config.piggyback_limit,
        v.after_send(addr, msg).1[0] == (OutgoingView { addr, message: msg }),
        v.after_send(addr, msg).0.swim == v.swim,
{
    if !(msg is Update) {
        let n = if v.config.piggyback_limit < v.queue.len() {
            v.config.piggyback_limit as nat
        } else {
            v.queue.len()
        };
        lemma_piggyback_bounded(v.queue, n);
    }
}

/// Asking relays to ping a target changes nothing in the member table.
pub proof fn lemma_relay_pings_keep_members(v: RuntimeView, target: Seq<char>, relays: Seq<Seq<char>>)
    ensures
        v.after_relay_pings(target, relays).0.swim == v.swim,
        v.after_relay_pings(target, relays).0.probe_started_at == v.probe_started_at,
        v.after_relay_pings(target, relays).0.probe_phase == v.probe_phase,
    decreases relays.len(),
{
    if relays.len() > 0 {
        lemma_relay_pings_keep_members(v, target, relays.drop_last());
        let s = v.after_relay_pings(target, relays.drop_last()).0;
        let r = relays.last();
        if let Some(m) = lookup(s.swim.members, r) {
            if let Some(msg) = s.swim.indirect_ping(target, r) {
                lemma_send_bounded(s, m.addr, msg);
            }
        }
    }
}

/// A direct probe that times out while relays are available is escalated
/// to indirect pings: nobody is suspected yet, the probe stays pending and
/// its indirect phase starts.
pub proof fn lemma_direct_timeout_escalates(v: RuntimeView, now: u64)
    requires
        v.wf(),
        v.probe_phase == Some(ProbePhase::Direct),
        v.probe_started_at matches Some(t) && super::runtime::elapsed(now, t) >= v.config.probe_timeout_ms,
        v.swim.pending matches Some(target) && v.swim.after_relays(
            target,
            v.config.indirect_probe_count,
        ).1.len() > 0,
    ensures
        v.after_probe_timeout(now).0.swim.members == v.swim.members,
        v.after_probe_timeout(now).0.swim.pending == v.swim.pending,
        v.after_probe_timeout(now).0.probe_phase == Some(ProbePhase::Indirect),
        v.after_probe_timeout(now).0.probe_started_at == Some(now),
        v.after_probe_timeout(now).2,
{
    let target = v.swim.pending->Some_0;
    let (sw, relays) = v.swim.after_relays(target, v.config.indirect_probe_count);
    let s = RuntimeView { swim: sw, ..v };
    lemma_relay_pings_keep_members(s, target, relays);
}

/// A relay asked to ping `target` pings it on the requester's behalf.
pub proof fn lemma_relay_forwards_ping(
    v: RuntimeView,
    source: Seq<char>,
    from: Seq<char>,
    target: Seq<char>,
)
    requires
        lookup(v.swim.members, target) is Some,
    ensures
        v.after_message(source, MessageView::PingReq { from, target, relay: v.swim.local_id }).1[0] == (
        OutgoingView {
            addr: lookup(v.swim.members, target)->Some_0.addr,
            message: MessageView::Ping { from, target },
        }),
{
    lemma_send_bounded(v, lookup(v.swim.members, target)->Some_0.addr, MessageView::Ping { from, target });
}

/// An acknowledgement from the pending target, addressed to this node,
/// ends the probe: no ping is pending, no probe timer runs, the target is
/// alive and no longer timed as suspect.
pub proof fn lemma_ack_clears_probe(v: RuntimeView, source: Seq<char>, from: Seq<char>)
    requires
        v.wf(),
        v.swim.pending == Some(from),
        lookup(v.swim.members, from) is Some,
    ensures
        ({
            let s = v.after_message(source, MessageView::Ack { from, target: v.swim.local_id }).0;
            &&& s.swim.pending is None
            &&& s.probe_started_at is None
            &&& s.probe_phase is None
            &&& lookup(s.swim.members, from) matches Some(m) && m.status == MemberStatus::Alive
            &&& forall|i: int| 0 <= i < s.suspects.len() ==> (#[trigger] s.suspects[i]).id != from
        }),
{
    super::lemmas::lemma_with_status(v.swim.members, from, MemberStatus::Alive);
    v.suspects.filter_lemma(super::runtime::mark_not_for(from));
}


/// Merging an update about another member that is already known: a later
/// incarnation always wins and an earlier one never does; at the same
/// incarnation the status decides, by the precedence
/// Alive < Suspect < Failed < Left, and only a strictly higher status wins.
/// A winning update becomes what is known of the member; a losing one
/// changes nothing.
pub proof fn lemma_update_precedence(s: SwimView, u: MemberView, e: MemberView)
    requires
        s.wf(),
        !(u.id == s.local_id && u.status == MemberStatus::Suspect),
        lookup(s.members, u.id) == Some(e),
    ensures
        ({
            let wins = u.incarnation > e.incarnation || (u.incarnation == e.incarnation && (
            (e.status == MemberStatus::Alive && u.status != MemberStatus::Alive) || (e.status
                == MemberStatus::Suspect && (u.status == MemberStatus::Failed || u.status == MemberStatus::Left))
                || (e.status == MemberStatus::Failed && u.status == MemberStatus::Left)));
            &&& wins ==> s.after_update(u).1 == UpdateOutcome::Applied && lookup(
                s.after_update(u).0.members,
                u.id,
            ) == Some(u)
            &&& !wins ==> s.after_update(u) == (s, UpdateOutcome::Ignored)
        }),
{
    if is_stale_update(e, u) {
        lemma_stale_update_ignored(s, u);
    } else {
        lemma_fresh_update_wins(s, u);
    }
}

} // verus!
