use core_engine::membership::{Member, MemberStatus, MembershipCodecError, MembershipMessage, SwimState, UpdateOutcome};
use core_engine::protocol::Opcode;

#[test]
fn node_starts_with_itself_alive() {
    let state = state("node-a");

    let local = state.member("node-a").expect("local member exists");

    assert_eq!(state.local_id(), "node-a");
    assert_eq!(state.members().len(), 1);
    assert_eq!(local.status, MemberStatus::Alive);
    assert_eq!(local.incarnation, 0);
}

#[test]
fn join_adds_new_member_and_returns_known_members() {
    let mut state = state("node-a");

    let known_members = state.handle_join(member("node-b", 7101, MemberStatus::Alive, 0));

    assert_eq!(state.member("node-b").unwrap().status, MemberStatus::Alive);
    assert_eq!(known_members.len(), 2);
}

#[test]
fn duplicate_join_is_idempotent() {
    let mut state = state("node-a");
    let node_b = member("node-b", 7101, MemberStatus::Alive, 0);

    assert_eq!(state.apply_update(node_b.clone()), UpdateOutcome::Applied);
    assert_eq!(state.apply_update(node_b), UpdateOutcome::Ignored);

    assert_eq!(state.members().len(), 2);
}

#[test]
fn higher_incarnation_update_wins() {
    let mut state = state("node-a");
    state.apply_update(member("node-b", 7101, MemberStatus::Alive, 1));

    let outcome = state.apply_update(member("node-b", 7101, MemberStatus::Suspect, 2));

    let node_b = state.member("node-b").unwrap();
    assert_eq!(outcome, UpdateOutcome::Applied);
    assert_eq!(node_b.status, MemberStatus::Suspect);
    assert_eq!(node_b.incarnation, 2);
}

#[test]
fn stale_incarnation_update_is_ignored() {
    let mut state = state("node-a");
    state.apply_update(member("node-b", 7101, MemberStatus::Suspect, 2));

    let outcome = state.apply_update(member("node-b", 7101, MemberStatus::Alive, 1));

    assert_eq!(outcome, UpdateOutcome::Ignored);
    assert_eq!(
        state.member("node-b").unwrap().status,
        MemberStatus::Suspect
    );
}

#[test]
fn equal_incarnation_uses_status_precedence() {
    let mut state = state("node-a");
    state.apply_update(member("node-b", 7101, MemberStatus::Alive, 1));

    assert_eq!(
        state.apply_update(member("node-b", 7101, MemberStatus::Suspect, 1)),
        UpdateOutcome::Applied
    );
    assert_eq!(
        state.apply_update(member("node-b", 7101, MemberStatus::Alive, 1)),
        UpdateOutcome::Ignored
    );
    assert_eq!(
        state.member("node-b").unwrap().status,
        MemberStatus::Suspect
    );
}

#[test]
fn suspect_self_bumps_incarnation_and_stays_alive() {
    let mut state = state("node-a");

    let outcome = state.apply_update(member("node-a", 7100, MemberStatus::Suspect, 0));

    let local = state.member("node-a").unwrap();
    assert_eq!(outcome, UpdateOutcome::SelfIncarnationBumped);
    assert_eq!(local.status, MemberStatus::Alive);
    assert_eq!(local.incarnation, 1);
}

#[test]
fn failed_members_are_not_selected_for_probing() {
    let mut state = state("node-a");
    state.apply_update(member("node-b", 7101, MemberStatus::Failed, 0));
    state.apply_update(member("node-c", 7102, MemberStatus::Alive, 0));

    assert_eq!(state.next_probe_target(), Some("node-c".to_string()));
}

#[test]
fn direct_ping_tracks_pending_target_and_ack_clears_it() {
    let mut state = state("node-a");
    state.apply_update(member("node-b", 7101, MemberStatus::Alive, 0));

    let message = state.start_direct_ping("node-b".to_string());

    assert_eq!(
        message,
        Some(MembershipMessage::Ping {
            from: "node-a".to_string(),
            target: "node-b".to_string()
        })
    );
    assert_eq!(state.pending_ping().unwrap().target, "node-b");
    assert!(state.handle_ack("node-b"));
    assert!(state.pending_ping().is_none());
}

#[test]
fn indirect_ping_req_uses_probeable_relay() {
    let mut state = state("node-a");
    state.apply_update(member("node-b", 7101, MemberStatus::Alive, 0));
    state.apply_update(member("node-c", 7102, MemberStatus::Alive, 0));

    let message = state.start_indirect_ping("node-b".to_string(), "node-c".to_string());

    assert_eq!(
        message,
        Some(MembershipMessage::PingReq {
            from: "node-a".to_string(),
            target: "node-b".to_string(),
            relay: "node-c".to_string()
        })
    );
}

#[test]
fn indirect_ping_relays_exclude_target_self_and_failed_members() {
    let mut state = state("node-a");
    state.apply_update(member("node-b", 7101, MemberStatus::Alive, 0));
    state.apply_update(member("node-c", 7102, MemberStatus::Alive, 0));
    state.apply_update(member("node-d", 7103, MemberStatus::Failed, 0));
    state.apply_update(member("node-e", 7104, MemberStatus::Alive, 0));

    let relays = state.indirect_ping_relays("node-b", 3);

    assert_eq!(relays.len(), 2);
    assert!(relays.contains(&"node-c".to_string()));
    assert!(relays.contains(&"node-e".to_string()));
}

#[test]
fn probe_target_selection_uses_seeded_randomness() {
    let mut state = SwimState::new_with_seed("node-a".to_string(), addr(7100), 1);
    state.apply_update(member("node-b", 7101, MemberStatus::Alive, 0));
    state.apply_update(member("node-c", 7102, MemberStatus::Alive, 0));
    state.apply_update(member("node-d", 7103, MemberStatus::Alive, 0));

    let selected: Vec<_> = (0..6)
        .map(|_| state.next_probe_target().expect("target selected"))
        .collect();

    assert_ne!(
        selected,
        vec![
            "node-b".to_string(),
            "node-c".to_string(),
            "node-d".to_string(),
            "node-b".to_string(),
            "node-c".to_string(),
            "node-d".to_string(),
        ]
    );
}

#[test]
fn indirect_ping_req_rejects_failed_target_and_failed_relay() {
    let mut state = state("node-a");
    state.apply_update(member("node-b", 7101, MemberStatus::Failed, 0));
    state.apply_update(member("node-c", 7102, MemberStatus::Alive, 0));
    state.apply_update(member("node-d", 7103, MemberStatus::Failed, 0));

    assert_eq!(
        state.start_indirect_ping("node-b".to_string(), "node-c".to_string()),
        None
    );
    assert_eq!(
        state.start_indirect_ping("node-c".to_string(), "node-d".to_string()),
        None
    );
}

#[test]
fn missing_direct_ping_ack_marks_member_suspect() {
    let mut state = state("node-a");
    state.apply_update(member("node-b", 7101, MemberStatus::Alive, 0));
    state.start_direct_ping("node-b".to_string());

    let update = state
        .mark_pending_ping_suspect()
        .expect("member is suspect");

    assert_eq!(update.id, "node-b");
    assert_eq!(update.status, MemberStatus::Suspect);
    assert_eq!(
        state.member("node-b").unwrap().status,
        MemberStatus::Suspect
    );
    assert!(state.pending_ping().is_none());
}

#[test]
fn suspect_member_can_be_marked_failed() {
    let mut state = state("node-a");
    state.apply_update(member("node-b", 7101, MemberStatus::Suspect, 0));

    let update = state.mark_failed("node-b").expect("member marked failed");

    assert_eq!(update.status, MemberStatus::Failed);
    assert_eq!(state.member("node-b").unwrap().status, MemberStatus::Failed);
}

#[test]
fn membership_join_payload_round_trips() {
    let message = MembershipMessage::Join(member("node-b", 7101, MemberStatus::Alive, 7));

    assert_round_trips(message);
}

#[test]
fn membership_join_ack_payload_round_trips() {
    let message = MembershipMessage::JoinAck(vec![
        member("node-a", 7100, MemberStatus::Alive, 0),
        member("node-b", 7101, MemberStatus::Suspect, 2),
    ]);

    assert_round_trips(message);
}

#[test]
fn membership_ping_req_payload_round_trips() {
    let message = MembershipMessage::PingReq {
        from: "node-a".to_string(),
        target: "node-b".to_string(),
        relay: "node-c".to_string(),
    };

    assert_round_trips(message);
}

#[test]
fn membership_decoder_rejects_non_membership_opcode() {
    assert_eq!(
        MembershipMessage::decode(Opcode::AppendTask, &[]),
        Err(MembershipCodecError::InvalidOpcode(Opcode::AppendTask))
    );
}

#[test]
fn membership_decoder_rejects_trailing_payload() {
    let message = MembershipMessage::Ack {
        from: "node-a".to_string(),
        target: "node-b".to_string(),
    };
    let mut payload = message.encode_payload().expect("payload encodes");
    payload.push(99);

    assert_eq!(
        MembershipMessage::decode(message.opcode(), &payload),
        Err(MembershipCodecError::InvalidPayload)
    );
}

fn state(id: &str) -> SwimState {
    SwimState::new(id.to_string(), addr(7100))
}

fn member(id: &str, port: u16, status: MemberStatus, incarnation: u64) -> Member {
    Member {
        id: id.to_string(),
        addr: addr(port),
        status,
        incarnation,
    }
}

fn addr(port: u16) -> String {
    format!("127.0.0.1:{port}")
}

fn assert_round_trips(message: MembershipMessage) {
    let payload = message.encode_payload().expect("payload encodes");
    let decoded = MembershipMessage::decode(message.opcode(), &payload).expect("decodes");

    assert_eq!(decoded, message);
}
