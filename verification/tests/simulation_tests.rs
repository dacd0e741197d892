use std::collections::HashMap;

use raft_core::log::LogEntry;
use raft_core::message::{Message, OutboundMessage};
use raft_core::node::{Config, Node, Role, xorshift};

fn build_cluster(seed: u64) -> Vec<Node> {
    let ids: [u64; 3] = [1, 2, 3];
    ids.iter()
        .map(|id| {
            let peers: Vec<u64> = ids.iter().copied().filter(|p| p != id).collect();
            Node::new(Config {
                id: *id,
                peers,
                election_timeout_min: 5,
                election_timeout_max: 10,
                heartbeat_interval: 2,
                seed: seed ^ (id * 0x9e37),
                initial_log: Vec::new(),
            })
            .unwrap()
        })
        .collect()
}

fn route(outbound: Vec<OutboundMessage>, inboxes: &mut [Vec<Message>], drop_roll: u64) {
    for o in outbound {
        // A lossy network: roughly one message in ten disappears.
        if drop_roll % 10 == 0 {
            continue;
        }
        inboxes[(o.to - 1) as usize].push(o.message);
    }
}

/// Drives three nodes through a pseudo-random schedule of deliveries,
/// drops, ticks and proposals, and checks on every step that no term
/// ever sees two leaders, and at the end that the applied sequences of
/// all nodes agree on their common prefix, in strict index order.
fn run_schedule(seed: u64) {
    let mut nodes = build_cluster(seed);
    let mut inboxes: Vec<Vec<Message>> = vec![Vec::new(), Vec::new(), Vec::new()];
    let mut applied: Vec<Vec<LogEntry>> = vec![Vec::new(), Vec::new(), Vec::new()];
    let mut leaders_by_term: HashMap<u64, u64> = HashMap::new();
    let mut roll = seed | 1;
    for round in 0..4000u64 {
        roll = xorshift(roll);
        let k = ((roll >> 8) % 3) as usize;
        let action = roll % 100;
        if action < 45 && !inboxes[k].is_empty() {
            let pos = ((roll >> 24) as usize) % inboxes[k].len();
            // Out-of-order delivery: take from anywhere in the mailbox.
            let m = inboxes[k].remove(pos);
            let out = nodes[k].step(m).expect("a routed message is never refused");
            route(out, &mut inboxes, roll >> 16);
        } else if action < 92 {
            let out = nodes[k].tick();
            route(out, &mut inboxes, roll >> 16);
        } else if nodes[k].log.last_index() < u64::MAX - 1 {
            let payload = round.to_le_bytes().to_vec();
            let _ = nodes[k].propose_if_leader(payload);
        }
        for n in nodes.iter_mut() {
            if n.role == Role::Leader {
                let prior = leaders_by_term.insert(n.current_term, n.id);
                if let Some(other) = prior {
                    assert_eq!(other, n.id, "two leaders in term {}", n.current_term);
                }
            }
        }
        for (i, n) in nodes.iter_mut().enumerate() {
            applied[i].extend(n.ready_for_application());
        }
    }
    assert!(!leaders_by_term.is_empty(), "no election ever succeeded");
    for log in &applied {
        for (pos, e) in log.iter().enumerate() {
            assert_eq!(e.index, pos as u64 + 1, "applied out of order");
        }
    }
    for a in 0..3 {
        for b in (a + 1)..3 {
            let common = applied[a].len().min(applied[b].len());
            for i in 0..common {
                assert_eq!(applied[a][i].index, applied[b][i].index);
                assert_eq!(applied[a][i].term, applied[b][i].term);
                assert_eq!(applied[a][i].payload, applied[b][i].payload);
            }
        }
    }
}

#[test]
fn lossy_reordered_schedule_keeps_election_safety_one() {
    run_schedule(0x1234_5678);
}

#[test]
fn lossy_reordered_schedule_keeps_election_safety_two() {
    run_schedule(0xdead_4001);
}

#[test]
fn lossy_reordered_schedule_keeps_election_safety_three() {
    run_schedule(77);
}
