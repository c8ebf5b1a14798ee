use core_engine::membership::runtime::{MembershipConfig, MembershipRuntime, Outgoing};
use core_engine::membership::{Member, MemberStatus, MembershipMessage};

struct Node {
    addr: String,
    runtime: MembershipRuntime,
}

fn node(id: &str, port: u16, config: MembershipConfig) -> Node {
    let addr = format!("127.0.0.1:{port}");
    Node { addr: addr.clone(), runtime: MembershipRuntime::new(id.to_string(), addr, config, 0) }
}

/// Delivers `outgoing`, sent by the node at `source`, and everything sent in
/// reply, until the network is quiet.
fn deliver(nodes: &mut [&mut Node], source: &str, outgoing: Vec<Outgoing>) {
    let mut in_flight: Vec<(String, Outgoing)> = outgoing.into_iter().map(|o| (source.to_string(), o)).collect();
    let mut steps = 0;
    while !in_flight.is_empty() {
        steps += 1;
        assert!(steps < 1000, "network never quiets");
        let (from, message) = in_flight.remove(0);
        let Some(target) = nodes.iter_mut().find(|n| n.addr == message.addr) else {
            continue;
        };
        assert!(target.runtime.message_in_range(&message.message));
        let replies = target.runtime.handle_message(from, message.message);
        let target_addr = target.addr.clone();
        in_flight.extend(replies.into_iter().map(|o| (target_addr.clone(), o)));
    }
}

fn join_nodes(node_a: &mut Node, node_b: &mut Node) {
    let out = node_a.runtime.send_join_requests(&[node_b.addr.clone()]);
    let a_addr = node_a.addr.clone();
    deliver(&mut [node_a, node_b], &a_addr, out);
}

fn status_of(node: &Node, id: &str) -> Option<MemberStatus> {
    node.runtime.state().member(id).map(|m| m.status)
}

fn test_config() -> MembershipConfig {
    MembershipConfig {
        probe_interval_ms: 50,
        probe_timeout_ms: 50,
        suspect_timeout_ms: 100,
        piggyback_limit: 4,
        dissemination_transmissions: 4,
        indirect_probe_count: 3,
        inspection_log_interval_ms: None,
    }
}

#[test]
fn join_request_converges_two_member_maps() {
    let mut node_a = node("node-a", 7201, MembershipConfig::default());
    let mut node_b = node("node-b", 7202, MembershipConfig::default());

    join_nodes(&mut node_a, &mut node_b);

    assert!(node_b.runtime.state().member("node-a").is_some());
    assert!(node_a.runtime.state().member("node-b").is_some());
}

#[test]
fn direct_ping_ack_keeps_member_alive() {
    let config = test_config();
    let mut node_a = node("node-a", 7211, config);
    let mut node_b = node("node-b", 7212, config);
    join_nodes(&mut node_a, &mut node_b);
    let now = config.probe_interval_ms;

    let tick = node_a.runtime.tick(now);
    assert!(tick.outgoing.iter().any(|o| matches!(o.message, MembershipMessage::Ping { .. })));
    let a_addr = node_a.addr.clone();
    deliver(&mut [&mut node_a, &mut node_b], &a_addr, tick.outgoing);

    assert_eq!(status_of(&node_a, "node-b"), Some(MemberStatus::Alive));
    assert!(node_a.runtime.state().pending_ping().is_none());
}

#[test]
fn missed_ack_marks_member_suspect_then_failed() {
    let config = test_config();
    let mut node_a = node("node-a", 7221, config);
    let mut node_b = node("node-b", 7222, config);
    join_nodes(&mut node_a, &mut node_b);
    let probe_started = config.probe_interval_ms;

    node_a.runtime.tick(probe_started);
    node_a.runtime.tick(probe_started + config.probe_timeout_ms);

    assert_eq!(status_of(&node_a, "node-b"), Some(MemberStatus::Suspect));
    assert!(node_a.runtime.state().pending_ping().is_none());

    node_a.runtime.tick(probe_started + config.probe_timeout_ms + config.suspect_timeout_ms);

    assert_eq!(status_of(&node_a, "node-b"), Some(MemberStatus::Failed));
}

#[test]
fn indirect_ping_ack_prevents_suspicion() {
    let config = test_config();
    let mut node_a = node("node-a", 7231, config);
    let mut node_b = node("node-b", 7232, config);
    let mut node_c = node("node-c", 7233, config);
    join_nodes(&mut node_a, &mut node_b);
    join_nodes(&mut node_a, &mut node_c);
    assert!(node_c.runtime.state().member("node-b").is_some());
    let probe_started = config.probe_interval_ms;

    let direct = node_a.runtime.tick(probe_started);
    let indirect = node_a.runtime.tick(probe_started + config.probe_timeout_ms);
    assert!(indirect.outgoing.iter().any(|o| matches!(o.message, MembershipMessage::PingReq { .. })));
    let mut sent = direct.outgoing;
    sent.extend(indirect.outgoing);
    let a_addr = node_a.addr.clone();
    deliver(&mut [&mut node_a, &mut node_b, &mut node_c], &a_addr, sent);
    assert!(node_a.runtime.state().pending_ping().is_none());

    node_a.runtime.tick(probe_started + config.probe_timeout_ms + config.probe_timeout_ms);

    assert_eq!(status_of(&node_a, "node-b"), Some(MemberStatus::Alive));
}

#[test]
fn failed_member_update_is_piggybacked_to_another_node() {
    let config = test_config();
    let mut node_a = node("node-a", 7241, config);
    let mut node_b = node("node-b", 7242, config);
    let mut node_c = node("node-c", 7243, config);
    join_nodes(&mut node_a, &mut node_b);
    join_nodes(&mut node_a, &mut node_c);
    assert!(node_c.runtime.state().member("node-b").is_some());
    node_a.runtime.apply_remote_update(Member {
        id: "node-b".to_string(),
        addr: node_b.addr.clone(),
        status: MemberStatus::Failed,
        incarnation: 0,
    });
    let mut out = Vec::new();

    node_a.runtime.send_message(
        node_c.addr.clone(),
        MembershipMessage::Ping { from: "node-a".to_string(), target: "node-c".to_string() },
        &mut out,
    );
    assert!(out.iter().any(|o| matches!(&o.message, MembershipMessage::Update(m) if m.id == "node-b")));
    let a_addr = node_a.addr.clone();
    deliver(&mut [&mut node_a, &mut node_c], &a_addr, out);

    assert_eq!(status_of(&node_c, "node-b"), Some(MemberStatus::Failed));
}

#[test]
fn membership_summary_lists_members_in_stable_order() {
    let config = test_config();
    let mut node_a = node("node-a", 7251, config);
    let mut node_b = node("node-b", 7252, config);
    join_nodes(&mut node_a, &mut node_b);

    let summary = node_a.runtime.membership_summary();

    assert!(summary.starts_with("node-a=Alive@0"));
    assert!(summary.contains("node-b=Alive@0"));
}
