use raft_core::log::LogEntry;
use raft_core::message::MessageKind;
use raft_core::message::Message;
use raft_core::node::{Config, Node, Role};

fn entry(index: u64, term: u64, payload: &[u8]) -> LogEntry {
    LogEntry { index, term, payload: payload.to_vec() }
}

fn config(id: u64, peers: Vec<u64>, seed: u64) -> Config {
    Config {
        id,
        peers,
        election_timeout_min: 5,
        election_timeout_max: 10,
        heartbeat_interval: 2,
        seed,
        initial_log: Vec::new(),
    }
}

fn msg(from: u64, term: u64, kind: MessageKind) -> Message {
    Message { from, term, kind }
}

#[test]
fn election_timeout_stays_in_the_configured_window() {
    let mut n = Node::new(config(1, vec![2], 123)).unwrap();
    let mut seen = Vec::new();
    for _ in 0..12 {
        assert!((5..10).contains(&n.election_timeout));
        seen.push(n.election_timeout);
        // Force a timer reset by feeding a heartbeat.
        n.step(msg(2, n.current_term, MessageKind::Heartbeat { leader_commit: 0 })).unwrap();
    }
    // Randomization: not every draw is the same value.
    assert!(seen.iter().any(|t| *t != seen[0]));
}

#[test]
fn quiet_ticks_accumulate_until_the_threshold() {
    let mut n = Node::new(config(1, vec![2], 1)).unwrap();
    let timeout = n.election_timeout;
    for expected in 1..timeout {
        let out = n.tick();
        assert_eq!(out.len(), 0);
        assert_eq!(n.election_elapsed, expected);
        assert_eq!(n.role, Role::Follower);
    }
    // The next tick crosses the threshold and opens a pre-vote round.
    let out = n.tick();
    assert_eq!(n.role, Role::PreCandidate);
    assert_eq!(out.len(), 1);
}

#[test]
fn malformed_batch_is_rejected_without_log_change() {
    let mut b = Node::new(config(2, vec![1], 3)).unwrap();
    // Entries that do not continue the anchor (a gap in indices).
    let out = b
        .step(msg(
            1,
            1,
            MessageKind::AppendEntries {
                prev_log_index: 0,
                prev_log_term: 0,
                entries: vec![entry(5, 1, b"gap")],
                leader_commit: 0,
            },
        ))
        .unwrap();
    match out[0].message.kind {
        MessageKind::AppendEntriesResponse { success, .. } => assert!(!success),
        _ => panic!("expected an append response"),
    }
    assert_eq!(b.log.last_index(), 0);
    // Entries carrying a term beyond the sender's are refused too.
    let out = b
        .step(msg(
            1,
            1,
            MessageKind::AppendEntries {
                prev_log_index: 0,
                prev_log_term: 0,
                entries: vec![entry(1, 7, b"future")],
                leader_commit: 0,
            },
        ))
        .unwrap();
    match out[0].message.kind {
        MessageKind::AppendEntriesResponse { success, .. } => assert!(!success),
        _ => panic!("expected an append response"),
    }
    assert_eq!(b.log.last_index(), 0);
}

#[test]
fn rejected_pre_vote_with_higher_term_steps_down() {
    let mut n = Node::new(config(1, vec![2], 4)).unwrap();
    while n.role != Role::PreCandidate {
        n.tick();
    }
    let out = n.step(msg(2, 6, MessageKind::PreVoteResponse { granted: false })).unwrap();
    assert_eq!(out.len(), 0);
    assert_eq!(n.role, Role::Follower);
    assert_eq!(n.current_term, 6);
}

#[test]
fn stale_responses_are_dropped() {
    let mut a = Node::new(config(1, vec![2], 5)).unwrap();
    a.role = Role::Leader;
    a.current_term = 4;
    a.voted_for = Some(1);
    a.votes_granted = vec![1, 2];
    a.next_index = vec![1];
    a.match_index = vec![0];
    let before_next = a.next_index.clone();
    let out = a
        .step(msg(2, 2, MessageKind::AppendEntriesResponse { success: false, match_hint: 0 }))
        .unwrap();
    assert_eq!(out.len(), 0);
    assert_eq!(a.next_index, before_next);
    assert_eq!(a.role, Role::Leader);
    assert_eq!(a.current_term, 4);
}

#[test]
fn leader_heartbeats_on_its_interval() {
    let mut a = Node::new(config(1, vec![2, 3], 6)).unwrap();
    a.role = Role::Leader;
    a.current_term = 1;
    a.voted_for = Some(1);
    a.votes_granted = vec![1, 2];
    // Interval is 2: the first tick is quiet, the second broadcasts.
    let out = a.tick();
    assert_eq!(out.len(), 0);
    assert_eq!(a.heartbeat_elapsed, 1);
    let out = a.tick();
    assert_eq!(out.len(), 2);
    assert_eq!(a.heartbeat_elapsed, 0);
    for o in &out {
        assert_eq!(o.message.from, 1);
        assert_eq!(o.message.term, 1);
        assert!(matches!(o.message.kind, MessageKind::Heartbeat { leader_commit: 0 }));
    }
    assert_eq!(out[0].to, 2);
    assert_eq!(out[1].to, 3);
}

#[test]
fn candidate_yields_to_a_leader_of_its_own_term() {
    let mut n = Node::new(config(1, vec![2], 7)).unwrap();
    n.role = Role::Candidate;
    n.current_term = 3;
    n.voted_for = Some(1);
    n.votes_granted = vec![1];
    let out = n
        .step(msg(
            2,
            3,
            MessageKind::AppendEntries {
                prev_log_index: 0,
                prev_log_term: 0,
                entries: vec![entry(1, 3, b"a")],
                leader_commit: 0,
            },
        ))
        .unwrap();
    assert_eq!(n.role, Role::Follower);
    assert_eq!(n.current_term, 3);
    match out[0].message.kind {
        MessageKind::AppendEntriesResponse { success, match_hint } => {
            assert!(success);
            assert_eq!(match_hint, 1);
        }
        _ => panic!("expected an append response"),
    }
}

#[test]
fn commit_waits_for_majority_in_a_three_node_cluster() {
    let mut a = Node::new(config(1, vec![2, 3], 8)).unwrap();
    a.role = Role::Leader;
    a.current_term = 1;
    a.voted_for = Some(1);
    a.votes_granted = vec![1, 2];
    a.next_index = vec![1, 1];
    a.match_index = vec![0, 0];
    a.propose_if_leader(b"v".to_vec()).unwrap();
    assert_eq!(a.commit_index, 0);
    // One acknowledgement out of two peers: with the leader that is 2 of
    // 3, a majority, so the entry commits — but not before.
    a.step(msg(2, 1, MessageKind::AppendEntriesResponse { success: true, match_hint: 1 }))
        .unwrap();
    assert_eq!(a.commit_index, 1);
}

#[test]
fn commit_skips_entries_of_prior_terms_until_own_term_commits() {
    // The leader completeness rule: entries from prior terms are never
    // counted out to commitment directly, only by committing an entry of
    // the leader's own term.
    let initial = vec![entry(1, 1, b"old")];
    let mut a = Node::new(Config {
        id: 1,
        peers: vec![2, 3],
        election_timeout_min: 5,
        election_timeout_max: 10,
        heartbeat_interval: 2,
        seed: 9,
        initial_log: initial,
    })
    .unwrap();
    a.role = Role::Leader;
    a.current_term = 2;
    a.voted_for = Some(1);
    a.votes_granted = vec![1, 2];
    a.next_index = vec![2, 2];
    a.match_index = vec![0, 0];
    // A majority stores index 1, but its term (1) is older than the
    // leader's (2): it must not commit.
    a.step(msg(2, 2, MessageKind::AppendEntriesResponse { success: true, match_hint: 1 }))
        .unwrap();
    assert_eq!(a.commit_index, 0);
    // Propose at the current term and replicate it: committing index 2
    // (term 2) carries index 1 with it.
    a.propose_if_leader(b"new".to_vec()).unwrap();
    a.step(msg(2, 2, MessageKind::AppendEntriesResponse { success: true, match_hint: 2 }))
        .unwrap();
    assert_eq!(a.commit_index, 2);
    let applied = a.ready_for_application();
    assert_eq!(applied.len(), 2);
    assert_eq!(applied[0].term, 1);
    assert_eq!(applied[1].term, 2);
}
