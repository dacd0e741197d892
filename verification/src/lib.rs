//! A single-node-aware Raft consensus core: leader election with PreVote,
//! log replication, and a message-driven state machine.
//!
//! The core owns no transport and performs no I/O: inbound messages and
//! clock ticks are handed to it, and outbound messages are returned to the
//! caller for routing.

use vstd::prelude::*;

pub mod log;
pub mod message;
pub mod node;
pub mod safety;

verus! {

/// Errors surfaced by the consensus core.
///
/// Stale messages and log mismatches are not errors at this level: they are
/// answered with rejection responses carried in the message stream.
#[derive(Clone, Copy, PartialEq, Eq, Structural, Debug)]
pub enum RaftError {
    /// Invalid construction parameters; fatal, reported before a node runs.
    ConfigInvalid,
    /// A log index outside the bounds of the stored log.
    NotFound,
    /// A proposal was made on a node that is not the leader.
    NotLeader,
    /// An attempt to truncate committed entries; unreachable under correct
    /// operation and treated as fatal.
    TruncationViolation,
    /// An inbound message names a sender outside the configured cluster.
    UnknownPeer,
}

} // verus!
