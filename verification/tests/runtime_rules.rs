use core_engine::membership::runtime::{MembershipConfig, MembershipRuntime};
use core_engine::membership::{Member, MemberStatus, MembershipMessage};
use core_engine::protocol::{Frame, Opcode};
use core_engine::raft::runtime::{RaftPeer, RaftRuntime, RaftRuntimeConfig, RaftRuntimeError, TickAction};
use core_engine::raft::{AppendEntries, AppendEntriesReply, RaftLogEntry, RaftMessage, RequestVoteReply, Role};

fn quick() -> RaftRuntimeConfig {
    RaftRuntimeConfig { election_timeout_min_ms: 10, election_timeout_spread_ms: 0, heartbeat_interval_ms: 5 }
}

fn peers(ids: &[&str]) -> Vec<RaftPeer> {
    ids.iter().map(|id| RaftPeer { id: id.to_string(), addr: format!("{id}:7000") }).collect()
}

#[test]
fn single_node_leader_commits_submitted_task() {
    let mut runtime = RaftRuntime::new_with_config("node-a".to_string(), Vec::new(), quick(), 0);
    assert!(matches!(runtime.tick(10), TickAction::ElectedAlone));

    let round = runtime.submit_task(b"task".to_vec()).expect("leader takes the task");

    assert_eq!(round.entry.index, 1);
    assert_eq!(round.entry.term, 1);
    assert_eq!(round.entry.task_id, "node-a-1");
    assert_eq!(round.request.entries, vec![round.entry.clone()]);
    assert_eq!(round.request.prev_log_index, 0);
    assert!(runtime.finish_round(&round));
    assert_eq!(runtime.commit_index(), 1);
    assert_eq!(runtime.last_log_index(), 1);
}

#[test]
fn follower_refuses_submitted_task() {
    let mut runtime = RaftRuntime::new("node-a".to_string(), peers(&["node-b"]), 0);

    assert!(runtime.submit_task(b"task".to_vec()).is_none());
    assert_eq!(runtime.last_log_index(), 0);
}

#[test]
fn round_commits_only_with_majority() {
    let mut runtime = RaftRuntime::new_with_config("node-a".to_string(), peers(&["node-b", "node-c"]), quick(), 0);
    let action = runtime.tick(10);
    let request = match action {
        TickAction::Election(r) => r,
        _ => panic!("election starts"),
    };
    assert_eq!(request.term, 1);
    let elected = runtime.on_vote_reply(RequestVoteReply { term: 1, vote_granted: true }, 11);
    let (announce, heartbeat) = elected.expect("majority reached");
    assert!(announce);
    assert!(heartbeat.entries.is_empty());
    assert_eq!(runtime.role(), Role::Leader);

    let mut round = runtime.submit_task(b"job".to_vec()).expect("leader takes the task");
    let refused = AppendEntriesReply { term: 1, success: false, match_index: 0 };
    assert!(!runtime.record_replication(&mut round, 0, refused, 12));
    assert_eq!(round.replicated, 1);
    let accepted = AppendEntriesReply { term: 1, success: true, match_index: 1 };
    assert!(!runtime.record_replication(&mut round, 1, accepted, 12));
    assert_eq!(round.replicated, 2);
    assert!(runtime.finish_round(&round));
    assert_eq!(runtime.commit_index(), 1);
}

#[test]
fn higher_term_reply_ends_round_and_leadership() {
    let mut runtime = RaftRuntime::new_with_config("node-a".to_string(), peers(&["node-b", "node-c"]), quick(), 0);
    runtime.tick(10);
    runtime.on_vote_reply(RequestVoteReply { term: 1, vote_granted: true }, 11);
    let mut round = runtime.submit_task(b"job".to_vec()).expect("leader takes the task");

    let ended = runtime.record_replication(&mut round, 0, AppendEntriesReply { term: 5, success: false, match_index: 0 }, 20);

    assert!(ended);
    assert_eq!(runtime.role(), Role::Follower);
    assert_eq!(runtime.current_term(), 5);
    assert_eq!(runtime.election_deadline(), 30);
}

#[test]
fn heartbeat_reply_with_higher_term_steps_down() {
    let mut runtime = RaftRuntime::new_with_config("node-a".to_string(), Vec::new(), quick(), 0);
    runtime.tick(10);
    assert!(matches!(runtime.tick(12), TickAction::Heartbeat(_)));
    assert!(matches!(runtime.tick(15), TickAction::Idle));
    assert!(matches!(runtime.tick(17), TickAction::Heartbeat(_)));

    assert!(!runtime.on_heartbeat_reply(AppendEntriesReply { term: 1, success: true, match_index: 0 }, 16));
    assert!(runtime.on_heartbeat_reply(AppendEntriesReply { term: 2, success: false, match_index: 0 }, 16));
    assert_eq!(runtime.role(), Role::Follower);
    assert_eq!(runtime.current_term(), 2);
}

#[test]
fn follower_persists_append_entries_payload_to_wal() {
    let mut runtime = RaftRuntime::new("node-b".to_string(), Vec::new(), 0);
    let request = AppendEntries {
        term: 1,
        leader_id: "node-a".to_string(),
        prev_log_index: 0,
        prev_log_term: 0,
        entries: vec![RaftLogEntry { term: 1, index: 1, task_id: "task-1".to_string(), payload: b"replicated".to_vec() }],
        leader_commit: 1,
    };
    let payload = RaftMessage::AppendEntries(request).encode_append_entries_family().unwrap();
    assert!(runtime.frame_in_range(Opcode::AppendEntries, &payload));

    let response = runtime.handle_frame(Opcode::AppendEntries, &payload, 5).expect("append entries handled");

    assert_eq!(response.persist, vec![b"replicated".to_vec()]);
    assert_eq!(runtime.last_log_index(), 1);
    assert_eq!(runtime.commit_index(), 1);
    let frame = Frame::decode(&response.frame).expect("reply frame decodes");
    assert_eq!(frame.opcode(), Opcode::AppendEntries);
    assert_eq!(
        RaftMessage::decode_append_entries_family(frame.payload()),
        Ok(RaftMessage::AppendEntriesReply(AppendEntriesReply { term: 1, success: true, match_index: 1 }))
    );
}

#[test]
fn unexpected_frames_are_refused() {
    let mut runtime = RaftRuntime::new("node-b".to_string(), Vec::new(), 0);
    let reply = RaftMessage::RequestVoteReply(RequestVoteReply { term: 1, vote_granted: true })
        .encode_request_vote_family()
        .unwrap();

    assert!(matches!(runtime.handle_frame(Opcode::RequestVote, &reply, 0), Err(RaftRuntimeError::UnexpectedReply)));
    assert!(matches!(
        runtime.handle_frame(Opcode::Ping, &[], 0),
        Err(RaftRuntimeError::UnsupportedOpcode(Opcode::Ping))
    ));
}

#[test]
fn election_deadline_stays_in_configured_window() {
    let runtime = RaftRuntime::new("node-a".to_string(), Vec::new(), 1000);

    assert!(runtime.election_deadline() >= 1150);
    assert!(runtime.election_deadline() <= 1300);
}

#[test]
fn queued_updates_are_coalesced_by_member() {
    let mut runtime = MembershipRuntime::new("node-a".to_string(), "127.0.0.1:1".to_string(), MembershipConfig::default(), 0);
    let member = |status, incarnation| Member { id: "node-b".to_string(), addr: "127.0.0.1:2".to_string(), status, incarnation };
    runtime.apply_remote_update(member(MemberStatus::Alive, 0));
    runtime.apply_remote_update(member(MemberStatus::Suspect, 1));
    let mut out = Vec::new();

    runtime.send_message(
        "127.0.0.1:2".to_string(),
        MembershipMessage::Ping { from: "node-a".to_string(), target: "node-b".to_string() },
        &mut out,
    );

    assert_eq!(out.len(), 2);
    assert!(matches!(&out[1].message, MembershipMessage::Update(m) if m.status == MemberStatus::Suspect && m.incarnation == 1));
}

#[test]
fn membership_summary_is_logged_on_interval() {
    let config = MembershipConfig { inspection_log_interval_ms: Some(10), ..MembershipConfig::default() };
    let mut runtime = MembershipRuntime::new("node-a".to_string(), "127.0.0.1:1".to_string(), config, 0);

    assert_eq!(runtime.tick(5).log_line, None);
    assert_eq!(runtime.tick(10).log_line, Some("membership node-a: node-a=Alive@0".to_string()));
    assert_eq!(runtime.tick(15).log_line, None);
}

#[test]
fn self_suspicion_at_last_incarnation_is_out_of_range() {
    let runtime = MembershipRuntime::new("node-a".to_string(), "127.0.0.1:1".to_string(), MembershipConfig::default(), 0);
    let suspect = |incarnation| {
        MembershipMessage::Update(Member {
            id: "node-a".to_string(),
            addr: "127.0.0.1:1".to_string(),
            status: MemberStatus::Suspect,
            incarnation,
        })
    };

    assert!(runtime.message_in_range(&suspect(3)));
    assert!(!runtime.message_in_range(&suspect(u64::MAX)));
}

#[test]
fn malformed_raft_payload_is_a_codec_error() {
    let mut runtime = RaftRuntime::new("node-b".to_string(), Vec::new(), 0);

    assert!(matches!(
        runtime.handle_frame(Opcode::AppendEntries, &[9, 9], 0),
        Err(RaftRuntimeError::Codec(core_engine::raft::RaftCodecError::InvalidPayload))
    ));
    assert_eq!(core_engine::raft::RaftCodecError::InvalidPayload.message(), "invalid raft payload");
}

#[test]
fn oversized_membership_message_is_refused() {
    let message = MembershipMessage::Ping { from: "a".repeat(70_000), target: "b".to_string() };

    assert_eq!(message.encode_payload(), Err(core_engine::membership::MembershipCodecError::PayloadTooLarge));
    assert_eq!(
        core_engine::membership::MembershipCodecError::InvalidOpcode(Opcode::AppendTask).message(),
        "invalid membership opcode: AppendTask"
    );
}

#[test]
fn member_addresses_are_checked_by_verdict() {
    let member = |addr: &str| Member { id: "node-b".to_string(), addr: addr.to_string(), status: MemberStatus::Alive, incarnation: 0 };
    let message = MembershipMessage::JoinAck(vec![member("127.0.0.1:2"), member("nowhere")]);

    assert_eq!(message.member_addrs(), vec!["127.0.0.1:2".to_string(), "nowhere".to_string()]);
    assert_eq!(
        message.clone().check_addresses(&[true, false]),
        Err(core_engine::membership::MembershipCodecError::InvalidPayload)
    );
    assert_eq!(message.clone().check_addresses(&[true, true]), Ok(message));
    let ping = MembershipMessage::Ping { from: "a".to_string(), target: "b".to_string() };
    assert!(ping.member_addrs().is_empty());
    assert_eq!(ping.clone().check_addresses(&[]), Ok(ping));
}

#[test]
fn replayed_log_is_restored() {
    let entries = vec![
        RaftLogEntry { term: 1, index: 1, task_id: "t-1".to_string(), payload: b"one".to_vec() },
        RaftLogEntry { term: 2, index: 2, task_id: "t-2".to_string(), payload: b"two".to_vec() },
    ];
    let mut runtime = RaftRuntime::new("node-a".to_string(), Vec::new(), 0);

    runtime.restore_log(entries.clone());

    assert_eq!(runtime.last_log_index(), 2);
    assert_eq!(runtime.state().log(), &entries[..]);
    assert_eq!(runtime.current_term(), 0);
    let mut tasks = core_engine::task::TaskState::new();
    tasks.apply_entries(&entries);
    assert_eq!(tasks.len(), 2);
    assert_eq!(tasks.get("t-2").unwrap().payload, b"two".to_vec());
}
