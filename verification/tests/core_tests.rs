use raft_core::RaftError;
use raft_core::log::{LogEntry, LogStore};
use raft_core::message::{Message, MessageKind, OutboundMessage, is_initial_msg};
use raft_core::node::{Config, Node, Role};

fn entry(index: u64, term: u64, payload: &[u8]) -> LogEntry {
    LogEntry { index, term, payload: payload.to_vec() }
}

fn config(id: u64, peers: Vec<u64>, initial_log: Vec<LogEntry>) -> Config {
    Config {
        id,
        peers,
        election_timeout_min: 3,
        election_timeout_max: 4,
        heartbeat_interval: 1,
        seed: 7,
        initial_log,
    }
}

fn msg(from: u64, term: u64, kind: MessageKind) -> Message {
    Message { from, term, kind }
}

#[test]
fn log_store_append_get_round_trip() {
    let mut store = LogStore::new();
    let batch = vec![entry(1, 1, b"a"), entry(2, 1, b"bb"), entry(3, 2, b"")];
    let last = store.append(batch);
    assert_eq!(last, 3);
    let expected: [(u64, &[u8]); 3] = [(1, b"a"), (1, b"bb"), (2, b"")];
    for i in 1..=3u64 {
        let got = store.get(i).unwrap();
        assert_eq!(got.index, i);
        assert_eq!(got.term, expected[(i - 1) as usize].0);
        assert_eq!(got.payload, expected[(i - 1) as usize].1.to_vec());
    }
    assert!(matches!(store.get(0), Err(RaftError::NotFound)));
    assert!(matches!(store.get(4), Err(RaftError::NotFound)));
    assert_eq!(store.last_index(), 3);
    assert_eq!(store.last_term(), 2);
}

#[test]
fn log_store_truncate_protects_committed_entries() {
    let mut store = LogStore::new();
    store.append(vec![entry(1, 1, b"a"), entry(2, 1, b"b"), entry(3, 1, b"c")]);
    // Committed through index 2: removing index 2 must be refused.
    assert!(matches!(store.truncate_from(2, 2), Err(RaftError::TruncationViolation)));
    assert_eq!(store.last_index(), 3);
    // Removing from index 3 is fine.
    assert!(store.truncate_from(3, 2).is_ok());
    assert_eq!(store.last_index(), 2);
    // Truncating beyond the end changes nothing.
    assert!(store.truncate_from(9, 2).is_ok());
    assert_eq!(store.last_index(), 2);
}

#[test]
fn config_rejects_bad_parameters() {
    assert!(matches!(Node::new(config(0, vec![], vec![])), Err(RaftError::ConfigInvalid)));
    assert!(matches!(Node::new(config(1, vec![2, 2], vec![])), Err(RaftError::ConfigInvalid)));
    assert!(matches!(Node::new(config(1, vec![1], vec![])), Err(RaftError::ConfigInvalid)));
    assert!(matches!(Node::new(config(1, vec![0], vec![])), Err(RaftError::ConfigInvalid)));
    let mut c = config(1, vec![2], vec![]);
    c.election_timeout_max = c.election_timeout_min;
    assert!(matches!(Node::new(c), Err(RaftError::ConfigInvalid)));
    let mut c = config(1, vec![2], vec![]);
    c.heartbeat_interval = 0;
    assert!(matches!(Node::new(c), Err(RaftError::ConfigInvalid)));
    // A gap in the initial log is refused.
    let c = config(1, vec![2], vec![entry(2, 1, b"")]);
    assert!(matches!(Node::new(c), Err(RaftError::ConfigInvalid)));
}

#[test]
fn new_node_starts_as_follower() {
    let n = Node::new(config(1, vec![2, 3], vec![])).unwrap();
    assert_eq!(n.role, Role::Follower);
    assert_eq!(n.current_term, 0);
    assert_eq!(n.voted_for, None);
    assert_eq!(n.commit_index, 0);
    assert_eq!(n.last_applied, 0);
}

#[test]
fn single_node_becomes_leader_and_applies_proposal() {
    // Single node, no peers: one election-timeout expiry makes it Leader
    // with zero vote round trips; a proposal then shows up committed.
    let mut n = Node::new(config(1, vec![], vec![])).unwrap();
    let timeout = n.election_timeout;
    assert!((3..4).contains(&timeout));
    let mut fired_out = Vec::new();
    for _ in 0..timeout {
        assert_eq!(n.role, Role::Follower);
        fired_out = n.tick();
    }
    assert_eq!(n.role, Role::Leader);
    assert_eq!(n.current_term, 1);
    assert_eq!(fired_out.len(), 0);
    let idx = n.propose_if_leader(b"x".to_vec()).unwrap();
    assert_eq!(idx, 1);
    n.tick();
    let ready = n.ready_for_application();
    assert_eq!(ready.len(), 1);
    assert_eq!(ready[0].index, 1);
    assert_eq!(ready[0].term, 1);
    assert_eq!(ready[0].payload, b"x".to_vec());
}

#[test]
fn ready_for_application_is_idempotent_without_new_commits() {
    let mut n = Node::new(config(1, vec![], vec![])).unwrap();
    while n.role != Role::Leader {
        n.tick();
    }
    n.propose_if_leader(b"a".to_vec()).unwrap();
    n.propose_if_leader(b"b".to_vec()).unwrap();
    let first = n.ready_for_application();
    assert_eq!(first.len(), 2);
    assert_eq!(first[0].index, 1);
    assert_eq!(first[1].index, 2);
    // No new commits: a second call returns an empty sequence, and so
    // does a third.
    assert_eq!(n.ready_for_application().len(), 0);
    assert_eq!(n.ready_for_application().len(), 0);
    // A new commit makes exactly the new entry available once.
    n.propose_if_leader(b"c".to_vec()).unwrap();
    let third = n.ready_for_application();
    assert_eq!(third.len(), 1);
    assert_eq!(third[0].index, 3);
    assert_eq!(n.ready_for_application().len(), 0);
}

#[test]
fn proposal_on_non_leader_is_refused() {
    let mut n = Node::new(config(1, vec![2], vec![])).unwrap();
    assert!(matches!(n.propose_if_leader(b"x".to_vec()), Err(RaftError::NotLeader)));
    assert_eq!(n.role, Role::Follower);
}

#[test]
fn unknown_sender_is_refused() {
    let mut n = Node::new(config(1, vec![2], vec![])).unwrap();
    let m = msg(9, 1, MessageKind::Heartbeat { leader_commit: 0 });
    assert!(matches!(n.step(m), Err(RaftError::UnknownPeer)));
    let own = msg(1, 1, MessageKind::Heartbeat { leader_commit: 0 });
    assert!(matches!(n.step(own), Err(RaftError::UnknownPeer)));
}

#[test]
fn stale_request_vote_is_rejected_with_current_term() {
    let initial = vec![entry(1, 2, b"a")];
    let mut n = Node::new(config(1, vec![2], initial)).unwrap();
    assert_eq!(n.current_term, 2);
    let out = n
        .step(msg(2, 1, MessageKind::RequestVote { last_log_index: 5, last_log_term: 1 }))
        .unwrap();
    assert_eq!(out.len(), 1);
    assert_eq!(out[0].to, 2);
    assert_eq!(out[0].message.term, 2);
    assert!(matches!(
        out[0].message.kind,
        MessageKind::RequestVoteResponse { granted: false }
    ));
    assert_eq!(n.voted_for, None);
}

#[test]
fn vote_granted_at_most_once_per_term() {
    let mut n = Node::new(config(1, vec![2, 3], vec![])).unwrap();
    let out = n
        .step(msg(2, 1, MessageKind::RequestVote { last_log_index: 0, last_log_term: 0 }))
        .unwrap();
    assert!(matches!(out[0].message.kind, MessageKind::RequestVoteResponse { granted: true }));
    assert_eq!(n.voted_for, Some(2));
    // Another candidate in the same term is refused.
    let out = n
        .step(msg(3, 1, MessageKind::RequestVote { last_log_index: 9, last_log_term: 1 }))
        .unwrap();
    assert!(matches!(out[0].message.kind, MessageKind::RequestVoteResponse { granted: false }));
    assert_eq!(n.voted_for, Some(2));
    // The same candidate asking again is granted again.
    let out = n
        .step(msg(2, 1, MessageKind::RequestVote { last_log_index: 0, last_log_term: 0 }))
        .unwrap();
    assert!(matches!(out[0].message.kind, MessageKind::RequestVoteResponse { granted: true }));
}

#[test]
fn vote_refused_to_less_up_to_date_candidate() {
    let initial = vec![entry(1, 1, b"a"), entry(2, 1, b"b")];
    let mut n = Node::new(config(1, vec![2], initial)).unwrap();
    // Same last term, shorter log: refused.
    let out = n
        .step(msg(2, 1, MessageKind::RequestVote { last_log_index: 1, last_log_term: 1 }))
        .unwrap();
    assert!(matches!(out[0].message.kind, MessageKind::RequestVoteResponse { granted: false }));
    // Higher last term: granted even though shorter.
    let out = n
        .step(msg(2, 2, MessageKind::RequestVote { last_log_index: 1, last_log_term: 2 }))
        .unwrap();
    assert!(matches!(out[0].message.kind, MessageKind::RequestVoteResponse { granted: true }));
}

#[test]
fn pre_vote_binds_nothing_and_keeps_term() {
    let mut n = Node::new(config(1, vec![2], vec![])).unwrap();
    let out = n
        .step(msg(2, 1, MessageKind::PreVote { last_log_index: 0, last_log_term: 0 }))
        .unwrap();
    assert_eq!(out.len(), 1);
    assert!(matches!(out[0].message.kind, MessageKind::PreVoteResponse { granted: true }));
    assert_eq!(out[0].message.term, 1);
    // The probe neither bound a vote nor advanced the term.
    assert_eq!(n.voted_for, None);
    assert_eq!(n.current_term, 0);
}

#[test]
fn append_entries_rejects_with_hint_and_leader_retries() {
    // Node A (Leader, term 2) sends AppendEntries with prevLogIndex=5,
    // prevLogTerm=2 to node B whose log ends at index 4: B rejects with a
    // hint, and A retries anchored at index 4.
    let b_log = vec![entry(1, 2, b"1"), entry(2, 2, b"2"), entry(3, 2, b"3"), entry(4, 2, b"4")];
    let mut b = Node::new(config(2, vec![1], b_log)).unwrap();
    assert_eq!(b.current_term, 2);
    let out = b
        .step(msg(
            1,
            2,
            MessageKind::AppendEntries {
                prev_log_index: 5,
                prev_log_term: 2,
                entries: vec![entry(6, 2, b"6")],
                leader_commit: 0,
            },
        ))
        .unwrap();
    assert_eq!(out.len(), 1);
    assert_eq!(out[0].to, 1);
    let hint = match out[0].message.kind {
        MessageKind::AppendEntriesResponse { success, match_hint } => {
            assert!(!success);
            match_hint
        }
        _ => panic!("expected an append response"),
    };
    assert_eq!(hint, 4);

    // A: Leader at term 2 with six entries, tracking B at next index 6.
    let a_log: Vec<LogEntry> = (1..=6).map(|i| entry(i, 2, b"x")).collect();
    let mut a = Node::new(config(1, vec![2], a_log)).unwrap();
    a.role = Role::Leader;
    a.voted_for = Some(1);
    a.votes_granted = vec![1, 2];
    a.next_index = vec![6];
    a.match_index = vec![0];
    let retry = a
        .step(msg(2, 2, MessageKind::AppendEntriesResponse { success: false, match_hint: hint }))
        .unwrap();
    assert_eq!(retry.len(), 1);
    assert_eq!(retry[0].to, 2);
    match &retry[0].message.kind {
        MessageKind::AppendEntries { prev_log_index, prev_log_term, entries, .. } => {
            assert_eq!(*prev_log_index, 4);
            assert_eq!(*prev_log_term, 2);
            assert_eq!(entries.len(), 2);
            assert_eq!(entries[0].index, 5);
            assert_eq!(entries[1].index, 6);
        }
        _ => panic!("expected a replication retry"),
    }
}

#[test]
fn append_entries_truncates_conflicting_suffix() {
    let b_log = vec![entry(1, 1, b"1"), entry(2, 1, b"old2"), entry(3, 1, b"old3")];
    let mut b = Node::new(config(2, vec![1], b_log)).unwrap();
    let out = b
        .step(msg(
            1,
            2,
            MessageKind::AppendEntries {
                prev_log_index: 1,
                prev_log_term: 1,
                entries: vec![entry(2, 2, b"new2")],
                leader_commit: 2,
            },
        ))
        .unwrap();
    match out[0].message.kind {
        MessageKind::AppendEntriesResponse { success, match_hint } => {
            assert!(success);
            assert_eq!(match_hint, 2);
        }
        _ => panic!("expected an append response"),
    }
    // The conflicting suffix is gone, the new entry in its place.
    assert_eq!(b.log.last_index(), 2);
    let e2 = b.log.get(2).unwrap();
    assert_eq!(e2.term, 2);
    assert_eq!(e2.payload, b"new2".to_vec());
    assert_eq!(b.commit_index, 2);
    assert_eq!(b.current_term, 2);
    assert_eq!(b.role, Role::Follower);
}

#[test]
fn heartbeat_advances_commit_and_resets_timer() {
    let b_log = vec![entry(1, 1, b"1"), entry(2, 1, b"2")];
    let mut b = Node::new(config(2, vec![1], b_log)).unwrap();
    // Walk right up to the election timeout, then a heartbeat arrives.
    for _ in 0..b.election_timeout - 1 {
        b.tick();
    }
    let out = b.step(msg(1, 1, MessageKind::Heartbeat { leader_commit: 9 })).unwrap();
    assert_eq!(out.len(), 0);
    // Commit is bounded by the local log.
    assert_eq!(b.commit_index, 2);
    assert_eq!(b.election_elapsed, 0);
    // The reset timer means the next tick does not start an election.
    b.tick();
    assert_eq!(b.role, Role::Follower);
}

#[test]
fn higher_term_forces_step_down() {
    let mut a = Node::new(config(1, vec![2], vec![])).unwrap();
    a.role = Role::Leader;
    a.current_term = 3;
    a.voted_for = Some(1);
    a.votes_granted = vec![1, 2];
    let out = a.step(msg(2, 5, MessageKind::Heartbeat { leader_commit: 0 })).unwrap();
    assert_eq!(out.len(), 0);
    assert_eq!(a.role, Role::Follower);
    assert_eq!(a.current_term, 5);
    assert_eq!(a.voted_for, None);
}

#[test]
fn split_vote_reverts_both_candidates_and_randomization_breaks_the_tie() {
    // Two candidates in the same term, votes split one against one: no
    // majority for either. Both revert to Follower after a fresh
    // randomized timeout, and the next round elects a leader.
    let mk = |id: u64, peer: u64, seed: u64| {
        let mut c = config(id, vec![peer], vec![]);
        c.election_timeout_min = 3;
        c.election_timeout_max = 6;
        c.seed = seed;
        Node::new(c).unwrap()
    };
    let mut a = mk(1, 2, 11);
    let mut b = mk(2, 1, 99);
    for n in [&mut a, &mut b] {
        n.role = Role::Candidate;
        n.current_term = 1;
        n.voted_for = Some(n.id);
        n.votes_granted = vec![n.id];
    }
    // Each candidate refuses the other: the vote is already bound.
    let out = a
        .step(msg(2, 1, MessageKind::RequestVote { last_log_index: 0, last_log_term: 0 }))
        .unwrap();
    assert!(matches!(out[0].message.kind, MessageKind::RequestVoteResponse { granted: false }));
    let out = b
        .step(msg(1, 1, MessageKind::RequestVote { last_log_index: 0, last_log_term: 0 }))
        .unwrap();
    assert!(matches!(out[0].message.kind, MessageKind::RequestVoteResponse { granted: false }));
    a.step(msg(2, 1, MessageKind::RequestVoteResponse { granted: false })).unwrap();
    b.step(msg(1, 1, MessageKind::RequestVoteResponse { granted: false })).unwrap();
    assert_eq!(a.role, Role::Candidate);
    assert_eq!(b.role, Role::Candidate);
    // Election timeouts expire: both step back to Follower.
    for _ in 0..a.election_timeout {
        a.tick();
    }
    for _ in 0..b.election_timeout {
        b.tick();
    }
    assert_eq!(a.role, Role::Follower);
    assert_eq!(b.role, Role::Follower);
    assert_eq!(a.current_term, 1);
    assert_eq!(b.current_term, 1);
    // Drive only the node whose fresh randomized timeout fires first:
    // its pre-vote round runs to completion undisturbed.
    let (first, second) = if a.election_timeout <= b.election_timeout {
        (&mut a, &mut b)
    } else {
        (&mut b, &mut a)
    };
    let mut probe = Vec::new();
    for _ in 0..first.election_timeout {
        probe = first.tick();
    }
    assert_eq!(first.role, Role::PreCandidate);
    assert_eq!(probe.len(), 1);
    let grant = second.step(probe.pop().map(|o| o.message).unwrap()).unwrap();
    let asks = first.step(grant.into_iter().next().map(|o| o.message).unwrap()).unwrap();
    assert_eq!(first.role, Role::Candidate);
    assert_eq!(first.current_term, 2);
    let grants = second.step(asks.into_iter().next().map(|o| o.message).unwrap()).unwrap();
    first.step(grants.into_iter().next().map(|o| o.message).unwrap()).unwrap();
    assert_eq!(first.role, Role::Leader);
    assert_eq!(first.current_term, 2);
    assert_eq!(second.role, Role::Follower);
    assert_eq!(second.current_term, 2);
}

#[test]
fn leader_replicates_and_commits_with_one_peer() {
    // A two-node cluster: the leader proposes, replicates on the
    // heartbeat, counts the acknowledgement, and commits; the follower
    // learns the commit index from the next heartbeat.
    let mut a = Node::new(config(1, vec![2], vec![])).unwrap();
    let mut b = Node::new(config(2, vec![1], vec![])).unwrap();
    a.role = Role::Leader;
    a.current_term = 1;
    a.voted_for = Some(1);
    a.votes_granted = vec![1, 2];
    a.next_index = vec![1];
    a.match_index = vec![0];
    let idx = a.propose_if_leader(b"v".to_vec()).unwrap();
    assert_eq!(idx, 1);
    assert_eq!(a.commit_index, 0);
    // Heartbeat interval is 1: the next tick replicates.
    let to_b = a.tick();
    assert_eq!(to_b.len(), 1);
    let replies = b.step(to_b.into_iter().next().map(|o| o.message).unwrap()).unwrap();
    assert_eq!(b.log.last_index(), 1);
    let acks = replies.into_iter().next().unwrap();
    assert_eq!(acks.to, 1);
    a.step(acks.message).unwrap();
    assert_eq!(a.commit_index, 1);
    // The follower commits once it hears the advanced leader commit.
    let to_b = a.tick();
    b.step(to_b.into_iter().next().map(|o| o.message).unwrap()).unwrap();
    assert_eq!(b.commit_index, 1);
    let applied = b.ready_for_application();
    assert_eq!(applied.len(), 1);
    assert_eq!(applied[0].payload, b"v".to_vec());
}

#[test]
fn initial_message_kinds_are_recognized() {
    let vote = msg(1, 1, MessageKind::RequestVote { last_log_index: 0, last_log_term: 0 });
    let pre = msg(1, 1, MessageKind::PreVote { last_log_index: 0, last_log_term: 0 });
    let hb0 = msg(1, 1, MessageKind::Heartbeat { leader_commit: 0 });
    let hb1 = msg(1, 1, MessageKind::Heartbeat { leader_commit: 3 });
    let resp = msg(1, 1, MessageKind::RequestVoteResponse { granted: true });
    assert!(is_initial_msg(&vote));
    assert!(is_initial_msg(&pre));
    assert!(is_initial_msg(&hb0));
    assert!(!is_initial_msg(&hb1));
    assert!(!is_initial_msg(&resp));
}

#[test]
fn outbound_messages_are_addressed() {
    let mut n = Node::new(config(1, vec![2, 3], vec![])).unwrap();
    let mut out: Vec<OutboundMessage> = Vec::new();
    for _ in 0..n.election_timeout {
        out = n.tick();
    }
    assert_eq!(n.role, Role::PreCandidate);
    assert_eq!(out.len(), 2);
    assert_eq!(out[0].to, 2);
    assert_eq!(out[1].to, 3);
    for o in &out {
        assert_eq!(o.message.from, 1);
        assert_eq!(o.message.term, 1);
        assert!(matches!(o.message.kind, MessageKind::PreVote { .. }));
    }
}
