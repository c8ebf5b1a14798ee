use core_engine::config::{Command, Config, ConfigError, Flag};
use core_engine::config::parse_raft_peer;

fn parse(args: &[&str]) -> Result<Command, ConfigError> {
    let args: Vec<String> = args.iter().map(|a| a.to_string()).collect();
    let addr_ok: Vec<bool> = args.iter().map(|a| a.contains(':')).collect();
    let peer_ok: Vec<bool> = args.iter().map(|a| a.split_once('=').is_some_and(|(_, addr)| addr.contains(':'))).collect();
    Config::parse(&args, &addr_ok, &peer_ok)
}

fn config(args: &[&str]) -> Config {
    match parse(args) {
        Ok(Command::Run(c)) => c,
        _ => panic!("arguments parse"),
    }
}

#[test]
fn defaults_apply_without_arguments() {
    let c = config(&[]);

    assert_eq!(c.node_id, "node-1");
    assert_eq!(c.addr, "127.0.0.1:7000");
    assert_eq!(c.membership_addr, "127.0.0.1:7100");
    assert!(c.join_membership_addrs.is_empty());
    assert!(c.raft_peers.is_empty());
    assert_eq!(c.wal_path, "data/node-1.log");
    assert_eq!(c.raft_log_path, None);
}

#[test]
fn flags_set_every_setting() {
    let c = config(&[
        "--node-id", "node-2", "--addr", "127.0.0.1:7001", "--membership-addr", "127.0.0.1:7101",
        "--join", "127.0.0.1:7100", "--join", "127.0.0.1:7102", "--raft-peer", "node-1=127.0.0.1:7000",
        "--wal", "data/node-2.log", "--raft-log", "data/node-2.raft.log",
    ]);

    assert_eq!(c.node_id, "node-2");
    assert_eq!(c.addr, "127.0.0.1:7001");
    assert_eq!(c.membership_addr, "127.0.0.1:7101");
    assert_eq!(c.join_membership_addrs, vec!["127.0.0.1:7100".to_string(), "127.0.0.1:7102".to_string()]);
    assert_eq!(c.raft_peers.len(), 1);
    assert_eq!(c.raft_peers[0].id, "node-1");
    assert_eq!(c.raft_peers[0].addr, "127.0.0.1:7000");
    assert_eq!(c.wal_path, "data/node-2.log");
    assert_eq!(c.raft_log_path, Some("data/node-2.raft.log".to_string()));
}

#[test]
fn missing_and_invalid_values_are_reported() {
    assert_eq!(parse(&["--addr"]).err(), Some(ConfigError::MissingValue(Flag::Addr)));
    assert_eq!(parse(&["--addr", "nowhere"]).err(), Some(ConfigError::InvalidValue(Flag::Addr)));
    assert_eq!(parse(&["--raft-peer", "=127.0.0.1:1"]).err(), Some(ConfigError::InvalidValue(Flag::RaftPeer)));
    assert_eq!(parse(&["--raft-peer", "node-2"]).err(), Some(ConfigError::InvalidValue(Flag::RaftPeer)));
    assert_eq!(parse(&["--bogus"]).err(), Some(ConfigError::UnknownArgument));
    assert_eq!(ConfigError::MissingValue(Flag::Join).message(), "missing --join value");
    assert_eq!(ConfigError::InvalidValue(Flag::RaftPeer).message(), "invalid --raft-peer value");
    assert_eq!(ConfigError::UnknownArgument.message(), "unknown argument");
}

#[test]
fn help_stops_parsing() {
    assert!(matches!(parse(&["--help", "--bogus"]), Ok(Command::Help)));
    assert!(matches!(parse(&["-h"]), Ok(Command::Help)));
    assert_eq!(parse(&["--bogus", "--help"]).err(), Some(ConfigError::UnknownArgument));
}

#[test]
fn raft_peer_splits_at_first_equals() {
    let peer = parse_raft_peer("a=b=c").expect("peer splits");

    assert_eq!(peer.id, "a");
    assert_eq!(peer.addr, "b=c");
    assert!(parse_raft_peer("no-separator").is_none());
}
