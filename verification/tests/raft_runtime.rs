use core_engine::raft::runtime::{RaftPeer, RaftRuntime, RaftRuntimeConfig, TickAction};
use core_engine::raft::Role;

#[test]
fn single_node_runtime_elects_itself_on_timeout() {
    let config = RaftRuntimeConfig {
        election_timeout_min_ms: 1,
        election_timeout_spread_ms: 0,
        heartbeat_interval_ms: 50,
    };
    let mut runtime = RaftRuntime::new_with_config("node-a".to_string(), Vec::new(), config, 0);

    let action = runtime.tick(2);

    assert!(matches!(action, TickAction::ElectedAlone));
    assert_eq!(runtime.role(), Role::Leader);
    assert_eq!(runtime.current_term(), 1);
}

#[test]
fn runtime_starts_as_follower() {
    let runtime = RaftRuntime::new(
        "node-a".to_string(),
        vec![RaftPeer { id: "node-b".to_string(), addr: "127.0.0.1:7001".to_string() }],
        0,
    );

    assert_eq!(runtime.role(), Role::Follower);
    assert_eq!(runtime.current_term(), 0);
}
