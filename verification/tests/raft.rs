use core_engine::raft::{
    AppendEntries, AppendEntriesReply, RaftCodecError, RaftLogEntry, RaftMessage, RaftState,
    RequestVote, RequestVoteReply, Role,
};


#[test]
fn follower_starts_with_empty_log_and_term_zero() {
    let state = RaftState::default();

    assert_eq!(state.role(), Role::Follower);
    assert_eq!(state.current_term(), 0);
    assert_eq!(state.voted_for(), None);
    assert!(state.log().is_empty());
    assert_eq!(state.commit_index(), 0);
    assert_eq!(state.last_applied(), 0);
}

#[test]
fn follower_can_start_election() {
    let mut state = RaftState::new(5);

    state.become_candidate("node-a".to_string());

    assert_eq!(state.role(), Role::Candidate);
    assert_eq!(state.current_term(), 1);
    assert_eq!(state.voted_for(), Some("node-a"));
    assert_eq!(state.votes_received(), 1);
}

#[test]
fn request_vote_rejected_for_stale_term() {
    let mut state = RaftState::default();
    state.handle_higher_term(3);

    let reply = state.handle_request_vote(request_vote(2, "node-b", 0, 0));

    assert_eq!(reply.term, 3);
    assert!(!reply.vote_granted);
    assert_eq!(state.voted_for(), None);
}

#[test]
fn request_vote_granted_for_first_vote_in_term() {
    let mut state = RaftState::default();

    let reply = state.handle_request_vote(request_vote(1, "node-b", 0, 0));

    assert_eq!(reply.term, 1);
    assert!(reply.vote_granted);
    assert_eq!(state.current_term(), 1);
    assert_eq!(state.voted_for(), Some("node-b"));
}

#[test]
fn request_vote_rejected_if_already_voted_for_other() {
    let mut state = RaftState::default();
    assert!(
        state
            .handle_request_vote(request_vote(1, "node-b", 0, 0))
            .vote_granted
    );

    let reply = state.handle_request_vote(request_vote(1, "node-c", 0, 0));

    assert!(!reply.vote_granted);
    assert_eq!(state.voted_for(), Some("node-b"));
}

#[test]
fn request_vote_rejected_if_candidate_log_term_is_behind() {
    let mut state = state_with_entries(&[(2, "task-a")]);

    let reply = state.handle_request_vote(request_vote(3, "node-b", 1, 1));

    assert!(!reply.vote_granted);
    assert_eq!(state.voted_for(), None);
}

#[test]
fn request_vote_rejected_if_same_log_term_but_lower_index() {
    let mut state = state_with_entries(&[(2, "task-a"), (2, "task-b")]);

    let reply = state.handle_request_vote(request_vote(3, "node-b", 1, 2));

    assert!(!reply.vote_granted);
}

#[test]
fn request_vote_granted_if_candidate_log_is_at_least_as_up_to_date() {
    let mut state = state_with_entries(&[(2, "task-a"), (2, "task-b")]);

    let reply = state.handle_request_vote(request_vote(3, "node-b", 2, 2));

    assert!(reply.vote_granted);
    assert_eq!(state.voted_for(), Some("node-b"));
}

#[test]
fn higher_term_message_demotes_to_follower_and_clears_vote() {
    let mut state = RaftState::new(5);
    state.become_candidate("node-a".to_string());

    state.handle_higher_term(7);

    assert_eq!(state.role(), Role::Follower);
    assert_eq!(state.current_term(), 7);
    assert_eq!(state.voted_for(), None);
    assert_eq!(state.votes_received(), 0);
}

#[test]
fn append_entries_heartbeat_resets_to_follower_and_accepts_leader() {
    let mut state = RaftState::new(5);
    state.become_candidate("node-a".to_string());

    let reply = state.handle_append_entries(append_entries(2, "node-b", 0, 0, Vec::new(), 0));

    assert!(reply.success);
    assert_eq!(reply.term, 2);
    assert_eq!(state.role(), Role::Follower);
    assert_eq!(state.current_term(), 2);
    assert_eq!(state.voted_for(), None);
}

#[test]
fn append_entries_rejected_for_stale_term() {
    let mut state = RaftState::default();
    state.handle_higher_term(4);

    let reply = state.handle_append_entries(append_entries(3, "node-b", 0, 0, Vec::new(), 0));

    assert!(!reply.success);
    assert_eq!(reply.term, 4);
}

#[test]
fn append_entries_rejected_when_prev_log_does_not_match() {
    let mut state = state_with_entries(&[(1, "task-a")]);

    let reply = state.handle_append_entries(append_entries(2, "node-b", 1, 2, Vec::new(), 0));

    assert!(!reply.success);
    assert_eq!(reply.match_index, 1);
}

#[test]
fn append_entries_advances_commit_index_from_leader_commit() {
    let mut state = state_with_entries(&[(1, "task-a"), (1, "task-b")]);

    let reply = state.handle_append_entries(append_entries(2, "node-b", 2, 1, Vec::new(), 5));

    assert!(reply.success);
    assert_eq!(state.commit_index(), 2);
}

#[test]
fn append_entries_appends_after_matching_previous_entry() {
    let mut state = state_with_entries(&[(1, "task-a")]);
    let entry = log_entry(2, 2, "task-b");

    let reply =
        state.handle_append_entries(append_entries(2, "node-b", 1, 1, vec![entry.clone()], 0));

    assert!(reply.success);
    assert_eq!(reply.match_index, 2);
    assert_eq!(state.log(), &[log_entry(1, 1, "task-a"), entry]);
}

#[test]
fn request_vote_reply_triggers_candidate_to_leader_at_majority() {
    let mut state = RaftState::new(5);
    state.become_candidate("node-a".to_string());

    assert_eq!(
        state.handle_request_vote_reply(RequestVoteReply {
            term: 1,
            vote_granted: true,
        }),
        None
    );
    assert_eq!(
        state.handle_request_vote_reply(RequestVoteReply {
            term: 1,
            vote_granted: true,
        }),
        Some(Role::Leader)
    );
    assert_eq!(state.role(), Role::Leader);
}

#[test]
fn request_vote_reply_from_higher_term_demotes_candidate() {
    let mut state = RaftState::new(5);
    state.become_candidate("node-a".to_string());

    let role = state.handle_request_vote_reply(RequestVoteReply {
        term: 2,
        vote_granted: false,
    });

    assert_eq!(role, Some(Role::Follower));
    assert_eq!(state.role(), Role::Follower);
    assert_eq!(state.current_term(), 2);
}

#[test]
fn raft_payload_codecs_round_trip() {
    let vote = request_vote(3, "node-a", 9, 2);
    assert_eq!(RequestVote::decode(&vote.encode().unwrap()).unwrap(), vote);

    let vote_reply = RequestVoteReply {
        term: 3,
        vote_granted: true,
    };
    assert_eq!(
        RequestVoteReply::decode(&vote_reply.encode()).unwrap(),
        vote_reply
    );

    let append = append_entries(4, "node-a", 1, 2, vec![log_entry(4, 2, "task-b")], 1);
    assert_eq!(
        AppendEntries::decode(&append.encode().unwrap()).unwrap(),
        append
    );

    let append_reply = AppendEntriesReply {
        term: 4,
        success: true,
        match_index: 2,
    };
    assert_eq!(
        AppendEntriesReply::decode(&append_reply.encode()).unwrap(),
        append_reply
    );
}

#[test]
fn raft_message_family_codecs_round_trip() {
    let vote = RaftMessage::RequestVote(request_vote(3, "node-a", 9, 2));
    assert_eq!(
        RaftMessage::decode_request_vote_family(&vote.encode_request_vote_family().unwrap())
            .unwrap(),
        vote
    );

    let vote_reply = RaftMessage::RequestVoteReply(RequestVoteReply {
        term: 3,
        vote_granted: true,
    });
    assert_eq!(
        RaftMessage::decode_request_vote_family(
            &vote_reply.encode_request_vote_family().unwrap()
        )
        .unwrap(),
        vote_reply
    );

    let append = RaftMessage::AppendEntries(append_entries(
        4,
        "node-a",
        1,
        2,
        vec![log_entry(4, 2, "task-b")],
        1,
    ));
    assert_eq!(
        RaftMessage::decode_append_entries_family(
            &append.encode_append_entries_family().unwrap()
        )
        .unwrap(),
        append
    );

    let append_reply = RaftMessage::AppendEntriesReply(AppendEntriesReply {
        term: 4,
        success: true,
        match_index: 2,
    });
    assert_eq!(
        RaftMessage::decode_append_entries_family(
            &append_reply.encode_append_entries_family().unwrap()
        )
        .unwrap(),
        append_reply
    );
}

#[test]
fn raft_payload_codecs_reject_truncated_payload() {
    assert_eq!(
        RequestVote::decode(&[0, 1, 2]),
        Err(RaftCodecError::InvalidPayload)
    );
    assert_eq!(
        AppendEntries::decode(&[0, 1, 2]),
        Err(RaftCodecError::InvalidPayload)
    );
}

#[test]
fn drain_applied_entries_returns_committed_not_yet_applied() {
    let mut state = state_with_entries(&[(1, "task-a"), (1, "task-b"), (1, "task-c")]);
    assert_eq!(state.commit_index(), 0);
    assert_eq!(state.last_applied(), 0);

    let applied = state.drain_applied_entries();
    assert!(applied.is_empty());

    state.commit_through(2);
    let applied = state.drain_applied_entries();
    assert_eq!(applied.len(), 2);
    assert_eq!(applied[0].task_id, "task-a");
    assert_eq!(applied[1].task_id, "task-b");
    assert_eq!(state.last_applied(), 2);

    state.commit_through(3);
    let applied = state.drain_applied_entries();
    assert_eq!(applied.len(), 1);
    assert_eq!(applied[0].task_id, "task-c");
    assert_eq!(state.last_applied(), 3);
}

fn state_with_entries(entries: &[(u64, &str)]) -> RaftState {
    let mut state = RaftState::new(5);
    for (term, task_id) in entries {
        state.append_local_entry(*term, (*task_id).to_string(), task_id.as_bytes().to_vec());
    }
    state
}

fn request_vote(
    term: u64,
    candidate_id: &str,
    last_log_index: u64,
    last_log_term: u64,
) -> RequestVote {
    RequestVote {
        term,
        candidate_id: candidate_id.to_string(),
        last_log_index,
        last_log_term,
    }
}

fn append_entries(
    term: u64,
    leader_id: &str,
    prev_log_index: u64,
    prev_log_term: u64,
    entries: Vec<RaftLogEntry>,
    leader_commit: u64,
) -> AppendEntries {
    AppendEntries {
        term,
        leader_id: leader_id.to_string(),
        prev_log_index,
        prev_log_term,
        entries,
        leader_commit,
    }
}

fn log_entry(term: u64, index: u64, task_id: &str) -> RaftLogEntry {
    RaftLogEntry {
        term,
        index,
        task_id: task_id.to_string(),
        payload: task_id.as_bytes().to_vec(),
    }
}
