//! The message vocabulary of the consensus core.
//!
//! Every inbound message carries the sender's id and the sender's term;
//! the kind carries the variant-specific fields. Outbound messages pair a
//! destination id with a message; they are returned to the caller, never
//! sent directly.

use vstd::prelude::*;

use crate::log::LogEntry;

verus! {

/// Variant-specific fields of a message.
pub enum MessageKind {
    /// A candidate asks for a binding vote in `Message::term`.
    RequestVote { last_log_index: u64, last_log_term: u64 },
    /// Answer to `RequestVote`; `term` is the responder's term.
    RequestVoteResponse { granted: bool },
    /// A pre-candidate probes for viability at the prospective term
    /// `Message::term` without anyone advancing a term or binding a vote.
    PreVote { last_log_index: u64, last_log_term: u64 },
    /// Answer to `PreVote`; `term` echoes the probed term when granted and
    /// carries the responder's own term when rejected.
    PreVoteResponse { granted: bool },
    /// Log replication from the leader: entries following the
    /// (`prev_log_index`, `prev_log_term`) anchor, and the leader's commit
    /// index.
    AppendEntries {
        prev_log_index: u64,
        prev_log_term: u64,
        entries: Vec<LogEntry>,
        leader_commit: u64,
    },
    /// Answer to `AppendEntries`. On success, `match_hint` is the highest
    /// log index known replicated on the responder; on rejection it is a
    /// hint for the leader's backward retry of the log anchor.
    AppendEntriesResponse { success: bool, match_hint: u64 },
    /// Empty `AppendEntries`: asserts leadership, resets the follower's
    /// election timer and may advance the follower's commit index.
    Heartbeat { leader_commit: u64 },
}

/// A message between nodes: sender id, sender term, and the variant.
pub struct Message {
    pub from: u64,
    pub term: u64,
    pub kind: MessageKind,
}

/// A message addressed to a peer, returned to the caller for routing.
pub struct OutboundMessage {
    pub to: u64,
    pub message: Message,
}

/// Whether a message can initialize a node that has seen no traffic yet: a
/// vote request, a pre-vote probe, or the first heartbeat (commit index
/// still 0).
pub open spec fn spec_is_initial_msg(msg: Message) -> bool {
    match msg.kind {
        MessageKind::RequestVote { .. } => true,
        MessageKind::PreVote { .. } => true,
        MessageKind::Heartbeat { leader_commit } => leader_commit == 0,
        _ => false,
    }
}

/// Tells whether a received message is one that could be used to
/// initialize a node: a `RequestVote`, a `PreVote`, or a first heartbeat
/// whose commit index is 0.
pub fn is_initial_msg(msg: &Message) -> (r: bool)
    ensures
        r == spec_is_initial_msg(*msg),
{
    match &msg.kind {
        MessageKind::RequestVote { .. } => true,
        MessageKind::PreVote { .. } => true,
        MessageKind::Heartbeat { leader_commit } => *leader_commit == 0,
        _ => false,
    }
}

} // verus!
