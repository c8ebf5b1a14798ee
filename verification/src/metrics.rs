//! Node counters and their Prometheus text exposition.

use crate::text::{self, push_decimal, push_escaped, push_str};
use vstd::prelude::*;

verus! {

/// Counters of one node. Counters wrap around at `u64::MAX`, and the
/// connection gauge wraps below zero, as atomic adds and subtracts do.
#[derive(Debug, Default, Clone, Copy, PartialEq, Eq, Structural)]
pub struct Metrics {
    pub tcp_accepts: u64,
    pub frames_in: u64,
    pub append_ok: u64,
    pub append_err: u64,
    pub protocol_err: u64,
    pub active_connections: u64,
}

/// `x + 1`, wrapping to 0 past `u64::MAX`.
pub open spec fn bumped(x: u64) -> u64 {
    if x == u64::MAX { 0 } else { (x + 1) as u64 }
}

/// `x - 1`, wrapping to `u64::MAX` below 0.
pub open spec fn dropped(x: u64) -> u64 {
    if x == 0 { u64::MAX } else { (x - 1) as u64 }
}

/// The counters after one accepted connection.
pub open spec fn accepted(m: Metrics) -> Metrics {
    Metrics { tcp_accepts: bumped(m.tcp_accepts), active_connections: bumped(m.active_connections), ..m }
}

/// The counters after one closed connection.
pub open spec fn closed(m: Metrics) -> Metrics {
    Metrics { active_connections: dropped(m.active_connections), ..m }
}

/// The counters after a run of connection events, in order: `true` for an
/// accepted connection, `false` for a closed one.
pub open spec fn after_connections(m: Metrics, events: Seq<bool>) -> Metrics
    decreases events.len(),
{
    if events.len() == 0 {
        m
    } else {
        let p = after_connections(m, events.drop_last());
        if events.last() { accepted(p) } else { closed(p) }
    }
}

/// How many events of a run are accepted connections.
pub open spec fn accepts_in(events: Seq<bool>) -> nat
    decreases events.len(),
{
    if events.len() == 0 {
        0
    } else {
        accepts_in(events.drop_last()) + if events.last() { 1nat } else { 0nat }
    }
}

/// How many events of a run are closed connections.
pub open spec fn closes_in(events: Seq<bool>) -> nat
    decreases events.len(),
{
    if events.len() == 0 {
        0
    } else {
        closes_in(events.drop_last()) + if events.last() { 0nat } else { 1nat }
    }
}

/// Counters all at zero.
pub open spec fn zeroed() -> Metrics {
    Metrics { tcp_accepts: 0, frames_in: 0, append_ok: 0, append_err: 0, protocol_err: 0, active_connections: 0 }
}

proof fn lemma_wrapping_steps(x: u64)
    ensures
        bumped(x) as int == (x + 1) % 0x1_0000_0000_0000_0000,
        dropped(x) as int == (x - 1) % 0x1_0000_0000_0000_0000,
{
}

proof fn lemma_connections_mod(events: Seq<bool>)
    ensures
        after_connections(zeroed(), events).tcp_accepts as int == accepts_in(events) as int % 0x1_0000_0000_0000_0000,
        after_connections(zeroed(), events).active_connections as int == (accepts_in(events) - closes_in(events))
            % 0x1_0000_0000_0000_0000,
        after_connections(zeroed(), events) == (Metrics {
            tcp_accepts: after_connections(zeroed(), events).tcp_accepts,
            active_connections: after_connections(zeroed(), events).active_connections,
            ..zeroed()
        }),
    decreases events.len(),
{
    let m: int = 0x1_0000_0000_0000_0000;
    if events.len() > 0 {
        let init = events.drop_last();
        lemma_connections_mod(init);
        let p = after_connections(zeroed(), init);
        let a = accepts_in(init) as int;
        let c = closes_in(init) as int;
        lemma_wrapping_steps(p.tcp_accepts);
        lemma_wrapping_steps(p.active_connections);
        vstd::arithmetic::div_mod::lemma_add_mod_noop(a, 1, m);
        vstd::arithmetic::div_mod::lemma_add_mod_noop(a - c, 1, m);
        vstd::arithmetic::div_mod::lemma_sub_mod_noop(a - c, 1, m);
        assert(1int % m == 1);
    }
}

/// Accepted and closed connections, interleaved in any order, leave the
/// gauge at accepts minus closes and the accept counter at the accepts,
/// the other counters untouched, as long as no more connections close than
/// were accepted and the accepts fit a `u64`.
pub proof fn lemma_connection_gauge(events: Seq<bool>)
    requires
        accepts_in(events) <= u64::MAX,
        closes_in(events) <= accepts_in(events),
    ensures
        after_connections(zeroed(), events) == (Metrics {
            tcp_accepts: accepts_in(events) as u64,
            active_connections: (accepts_in(events) - closes_in(events)) as u64,
            ..zeroed()
        }),
{
    lemma_connections_mod(events);
    let m: int = 0x1_0000_0000_0000_0000;
    vstd::arithmetic::div_mod::lemma_small_mod(accepts_in(events), m as nat);
    vstd::arithmetic::div_mod::lemma_small_mod((accepts_in(events) - closes_in(events)) as nat, m as nat);
}

fn bump(x: u64) -> (r: u64)
    ensures
        r == bumped(x),
{
    if x == u64::MAX { 0 } else { x + 1 }
}

/// One metric in the text exposition format: help and type lines, then the
/// sample labelled with the node id.
pub open spec fn metric_block(
    name: Seq<char>,
    help: Seq<char>,
    kind: Seq<char>,
    node: Seq<char>,
    value: u64,
) -> Seq<char> {
    "# HELP "@ + name + " "@ + help + "\n# TYPE "@ + name + " "@ + kind + "\n"@ + name
        + "{node_id=\""@ + text::label_escaped(node) + "\"} "@ + text::decimal(value as nat) + "\n"@
}

/// The whole exposition of `m` for node `node`.
pub open spec fn prometheus_text(m: Metrics, node: Seq<char>) -> Seq<char> {
    metric_block("core_engine_tcp_accepts_total"@, "Accepted TCP connections"@, "counter"@, node, m.tcp_accepts)
        + metric_block("core_engine_frames_in_total"@, "Inbound protocol frames"@, "counter"@, node, m.frames_in)
        + metric_block("core_engine_append_ok_total"@, "Successful appends"@, "counter"@, node, m.append_ok)
        + metric_block("core_engine_append_err_total"@, "Failed appends"@, "counter"@, node, m.append_err)
        + metric_block(
        "core_engine_protocol_err_total"@,
        "Protocol decode/handle errors"@,
        "counter"@,
        node,
        m.protocol_err,
    ) + metric_block(
        "core_engine_active_connections"@,
        "Current TCP connections"@,
        "gauge"@,
        node,
        m.active_connections,
    )
}

fn push_metric(out: &mut String, name: &str, help: &str, kind: &str, node: &str, value: u64)
    ensures
        final(out)@ == old(out)@ + metric_block(name@, help@, kind@, node@, value),
{
    push_str(out, "# HELP ");
    push_str(out, name);
    push_str(out, " ");
    push_str(out, help);
    push_str(out, "\n# TYPE ");
    push_str(out, name);
    push_str(out, " ");
    push_str(out, kind);
    push_str(out, "\n");
    push_str(out, name);
    push_str(out, "{node_id=\"");
    push_escaped(out, node, false);
    push_str(out, "\"} ");
    push_decimal(out, value);
    push_str(out, "\n");
    assert(final(out)@ =~= old(out)@ + metric_block(name@, help@, kind@, node@, value));
}

impl Metrics {
    pub fn new() -> (m: Self)
        ensures
            m == zeroed(),
    {
        Metrics {
            tcp_accepts: 0,
            frames_in: 0,
            append_ok: 0,
            append_err: 0,
            protocol_err: 0,
            active_connections: 0,
        }
    }

    /// Counts an accepted connection, which is also now active.
    pub fn inc_accepts(&mut self)
        ensures
            *final(self) == accepted(*old(self)),
    {
        self.tcp_accepts = bump(self.tcp_accepts);
        self.active_connections = bump(self.active_connections);
    }

    /// Counts a closed connection.
    pub fn dec_connections(&mut self)
        ensures
            *final(self) == closed(*old(self)),
    {
        self.active_connections = if self.active_connections == 0 { u64::MAX } else { self.active_connections - 1 };
    }

    pub fn inc_frames(&mut self)
        ensures
            *final(self) == (Metrics { frames_in: bumped(old(self).frames_in), ..*old(self) }),
    {
        self.frames_in = bump(self.frames_in);
    }

    pub fn inc_append_ok(&mut self)
        ensures
            *final(self) == (Metrics { append_ok: bumped(old(self).append_ok), ..*old(self) }),
    {
        self.append_ok = bump(self.append_ok);
    }

    pub fn inc_append_err(&mut self)
        ensures
            *final(self) == (Metrics { append_err: bumped(old(self).append_err), ..*old(self) }),
    {
        self.append_err = bump(self.append_err);
    }

    pub fn inc_protocol_err(&mut self)
        ensures
            *final(self) == (Metrics { protocol_err: bumped(old(self).protocol_err), ..*old(self) }),
    {
        self.protocol_err = bump(self.protocol_err);
    }

    /// The counters in Prometheus text format, each sample labelled with
    /// `node_id`.
    pub fn render_prometheus(&self, node_id: &str) -> (s: String)
        ensures
            s@ == prometheus_text(*self, node_id@),
    {
        let mut out = String::new();
        push_metric(&mut out, "core_engine_tcp_accepts_total", "Accepted TCP connections", "counter", node_id, self.tcp_accepts);
        push_metric(&mut out, "core_engine_frames_in_total", "Inbound protocol frames", "counter", node_id, self.frames_in);
        push_metric(&mut out, "core_engine_append_ok_total", "Successful appends", "counter", node_id, self.append_ok);
        push_metric(&mut out, "core_engine_append_err_total", "Failed appends", "counter", node_id, self.append_err);
        push_metric(&mut out, "core_engine_protocol_err_total", "Protocol decode/handle errors", "counter", node_id, self.protocol_err);
        push_metric(&mut out, "core_engine_active_connections", "Current TCP connections", "gauge", node_id, self.active_connections);
        assert(out@ =~= prometheus_text(*self, node_id@));
        out
    }
}

} // verus!
