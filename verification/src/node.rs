//! The consensus node: role state, the message processor, and the tick
//! driver, composed behind a small façade (`step`, `tick`,
//! `propose_if_leader`, `ready_for_application`).
//!
//! The node owns its state exclusively; callers drive it by sequential
//! calls and route the returned outbound messages themselves.

use vstd::prelude::*;

use crate::RaftError;
use crate::log::{LogEntry, LogStore, entries_wf, last_term_of, models_of};
use crate::message::{Message, MessageKind, OutboundMessage};

verus! {

/// The role of a node. A node starts as Follower.
#[derive(Clone, Copy, PartialEq, Eq, Structural, Debug)]
pub enum Role {
    Follower,
    PreCandidate,
    Candidate,
    Leader,
}

/// Construction parameters for a node. `election_timeout_min` and
/// `election_timeout_max` bound the randomized election timeout, drawn
/// from the half-open window `[min, max)`; `heartbeat_interval` is the
/// fixed leader heartbeat period; `seed` feeds the timeout randomization.
pub struct Config {
    pub id: u64,
    pub peers: Vec<u64>,
    pub election_timeout_min: u64,
    pub election_timeout_max: u64,
    pub heartbeat_interval: u64,
    pub seed: u64,
    pub initial_log: Vec<LogEntry>,
}

/// Whether a sequence holds a given id.
pub open spec fn seq_contains(s: Seq<u64>, x: u64) -> bool {
    exists|i: int| 0 <= i < s.len() && s[i] == x
}

/// Whether all ids in a sequence are distinct.
pub open spec fn seq_distinct(s: Seq<u64>) -> bool {
    forall|i: int, j: int| 0 <= i < j < s.len() ==> s[i] != s[j]
}

/// Validity of construction parameters: a positive id, positive distinct
/// peer ids not equal to the node's own, a non-empty randomized timeout
/// window, a positive heartbeat interval, and a well-formed initial log.
pub open spec fn config_valid(c: Config) -> bool {
    &&& c.id >= 1
    &&& forall|i: int| 0 <= i < c.peers@.len() ==> (#[trigger] c.peers@[i]) >= 1 && c.peers@[i] != c.id
    &&& seq_distinct(c.peers@)
    &&& 1 <= c.election_timeout_min < c.election_timeout_max
    &&& c.heartbeat_interval >= 1
    &&& entries_wf(models_of(c.initial_log@))
}

/// Whether a candidate's log, summarized by its last term and last index,
/// is at least as up to date as a voter's: compared lexicographically by
/// (last term, last index).
pub open spec fn up_to_date(
    cand_last_term: int,
    cand_last_index: int,
    mine_last_term: int,
    mine_last_index: int,
) -> bool {
    ||| cand_last_term > mine_last_term
    ||| (cand_last_term == mine_last_term && cand_last_index >= mine_last_index)
}

/// How many entries of `s` are at least `n`: used to count peers whose
/// match index reaches a candidate commit point.
pub open spec fn count_ge(s: Seq<u64>, n: u64) -> int
    decreases s.len(),
{
    if s.len() == 0 {
        0
    } else {
        count_ge(s.drop_last(), n) + if s.last() >= n {
            1int
        } else {
            0int
        }
    }
}

/// One step of the xorshift generator driving timeout randomization.
pub open spec fn spec_xorshift(x: u64) -> u64 {
    let a = x ^ (x << 13);
    let b = a ^ (a >> 7);
    b ^ (b << 17)
}

/// Advances the xorshift state.
pub fn xorshift(x: u64) -> (r: u64)
    ensures
        r == spec_xorshift(x),
{
    let a = x ^ (x << 13);
    let b = a ^ (a >> 7);
    b ^ (b << 17)
}

/// Whether `v` holds `x`.
pub fn contains_id(v: &Vec<u64>, x: u64) -> (r: bool)
    ensures
        r == seq_contains(v@, x),
{
    let mut i: usize = 0;
    while i < v.len()
        invariant
            i <= v@.len(),
            forall|k: int| 0 <= k < i ==> v@[k] != x,
        decreases v@.len() - i,
    {
        if v[i] == x {
            return true;
        }
        i = i + 1;
    }
    false
}

/// A consensus node. Fields are read-only for callers: mutation goes
/// through `step`, `tick`, `propose_if_leader` and
/// `ready_for_application`, sequentially (single-writer discipline).
pub struct Node {
    pub id: u64,
    pub peers: Vec<u64>,
    pub role: Role,
    pub current_term: u64,
    pub voted_for: Option<u64>,
    pub commit_index: u64,
    pub last_applied: u64,
    pub log: LogStore,
    pub election_timeout_min: u64,
    pub election_timeout_max: u64,
    pub heartbeat_interval: u64,
    /// The randomized election timeout currently in force.
    pub election_timeout: u64,
    /// Ticks accumulated since the last election-timer reset.
    pub election_elapsed: u64,
    /// Ticks accumulated since the last heartbeat broadcast (Leader only).
    pub heartbeat_elapsed: u64,
    pub rng: u64,
    /// Ids that granted the current vote round, own vote included.
    pub votes_granted: Vec<u64>,
    /// Leader-only replication progress, parallel to `peers`.
    pub next_index: Vec<u64>,
    pub match_index: Vec<u64>,
}

impl Node {
    /// Number of voting members: the peers and this node.
    pub open spec fn cluster_size(&self) -> int {
        self.peers@.len() + 1int
    }

    /// Whether `p` is one of the configured peers.
    pub open spec fn is_peer(&self, p: u64) -> bool {
        seq_contains(self.peers@, p)
    }

    /// Internal well-formedness, established by `new` and preserved by
    /// every operation.
    pub open spec fn wf(&self) -> bool {
        &&& self.id >= 1
    &&& forall|i: int| 0 <= i < self.peers@.len() ==> (#[trigger] self.peers@[i]) >= 1
            && self.peers@[i] != self.id
        &&& seq_distinct(self.peers@)
        &&& self.log.wf()
        &&& self.last_applied <= self.commit_index
        &&& self.commit_index as int <= self.log@.len()
        &&& 1 <= self.election_timeout_min < self.election_timeout_max
        &&& self.election_timeout_min <= self.election_timeout < self.election_timeout_max
        &&& self.heartbeat_interval >= 1
        &&& self.next_index@.len() == self.peers@.len()
        &&& self.match_index@.len() == self.peers@.len()
        &&& forall|i: int| 0 <= i < self.next_index@.len() ==> (#[trigger] self.next_index@[i]) >= 1
        &&& self.election_elapsed <= self.election_timeout
        &&& self.heartbeat_elapsed <= self.heartbeat_interval
        &&& last_term_of(self.log@) <= self.current_term as int
        &&& seq_distinct(self.votes_granted@)
        &&& forall|i: int| 0 <= i < self.votes_granted@.len() ==> (#[trigger] self.votes_granted@[i])
            == self.id || seq_contains(self.peers@, self.votes_granted@[i])
        &&& (self.role == Role::Leader ==> 2 * self.votes_granted@.len() > self.cluster_size())
    }

    /// Builds a node from validated configuration. Succeeds exactly on
    /// valid parameters; on success the node starts as a Follower with no
    /// vote cast, nothing committed, the configured initial log, and its
    /// term equal to the last term of that log.
    pub fn new(config: Config) -> (r: Result<Node, RaftError>)
        ensures
            r is Ok <==> config_valid(config),
            r is Err ==> r == Err::<Node, RaftError>(RaftError::ConfigInvalid),
            r matches Ok(n) ==> {
                &&& n.wf()
                &&& n.id == config.id
                &&& n.peers@ == config.peers@
                &&& n.role == Role::Follower
                &&& n.current_term as int == last_term_of(models_of(config.initial_log@))
                &&& n.voted_for is None
                &&& n.commit_index == 0
                &&& n.last_applied == 0
                &&& n.log@ == models_of(config.initial_log@)
                &&& n.election_timeout_min == config.election_timeout_min
                &&& n.election_timeout_max == config.election_timeout_max
                &&& n.heartbeat_interval == config.heartbeat_interval
                &&& n.election_elapsed == 0
            },
    {
        let Config {
            id,
            peers,
            election_timeout_min,
            election_timeout_max,
            heartbeat_interval,
            seed,
            initial_log,
        } = config;
        if id < 1 {
            return Err(RaftError::ConfigInvalid);
        }
        if election_timeout_min < 1 || election_timeout_min >= election_timeout_max {
            return Err(RaftError::ConfigInvalid);
        }
        if heartbeat_interval < 1 {
            return Err(RaftError::ConfigInvalid);
        }
        let mut i: usize = 0;
        while i < peers.len()
            invariant
                peers@ == config.peers@,
                id == config.id,
                i <= peers@.len(),
                forall|k: int| 0 <= k < i ==> (#[trigger] peers@[k]) >= 1 && peers@[k] != id,
                forall|k: int, l: int| 0 <= k < l < i ==> peers@[k] != peers@[l],
            decreases peers@.len() - i,
        {
            let p = peers[i];
            if p < 1 || p == id {
                proof {
                    assert(!(config.peers@[i as int] >= 1 && config.peers@[i as int]
                        != config.id));
                }
                return Err(RaftError::ConfigInvalid);
            }
            let mut j: usize = 0;
            while j < i
                invariant
                    peers@ == config.peers@,
                    j <= i,
                    i < peers@.len(),
                    p == peers@[i as int],
                    forall|k: int| 0 <= k < j ==> peers@[k] != p,
                decreases i - j,
            {
                if peers[j] == p {
                    proof {
                        assert(config.peers@[j as int] == config.peers@[i as int]);
                        assert(!seq_distinct(config.peers@));
                    }
                    return Err(RaftError::ConfigInvalid);
                }
                j = j + 1;
            }
            i = i + 1;
        }
        if !log_shape_ok(&initial_log) {
            return Err(RaftError::ConfigInvalid);
        }
        let mut log = LogStore::new();
        let current_term = if initial_log.len() == 0 {
            0
        } else {
            initial_log[initial_log.len() - 1].term
        };
        proof {
            assert(models_of(initial_log@) =~= Seq::<crate::log::EntryModel>::empty()
                + models_of(initial_log@));
        }
        let last = log.append(initial_log);
        let next_index = filled(peers.len(), if last < u64::MAX {
            last + 1
        } else {
            1
        });
        let match_index = filled(peers.len(), 0);
        let rng0 = seed | 1;
        let rng = xorshift(rng0);
        let election_timeout = election_timeout_min + rng % (election_timeout_max
            - election_timeout_min);
        let n = Node {
            id,
            peers,
            role: Role::Follower,
            current_term,
            voted_for: None,
            commit_index: 0,
            last_applied: 0,
            log,
            election_timeout_min,
            election_timeout_max,
            heartbeat_interval,
            election_timeout,
            election_elapsed: 0,
            heartbeat_elapsed: 0,
            rng,
            votes_granted: Vec::new(),
            next_index,
            match_index,
        };
        Ok(n)
    }

    /// Configuration fields are never changed by an operation.
    pub open spec fn same_config(pre: Node, post: Node) -> bool {
        &&& post.id == pre.id
        &&& post.peers@ == pre.peers@
        &&& post.election_timeout_min == pre.election_timeout_min
        &&& post.election_timeout_max == pre.election_timeout_max
        &&& post.heartbeat_interval == pre.heartbeat_interval
    }

    /// The log, the commit index and the applied index are untouched.
    pub open spec fn same_log_state(pre: Node, post: Node) -> bool {
        &&& post.log@ == pre.log@
        &&& post.commit_index == pre.commit_index
        &&& post.last_applied == pre.last_applied
    }

    /// The binding-vote grant rule: at most one vote per term, and only
    /// for a candidate whose log is at least as up to date as the voter's.
    pub open spec fn vote_grant(self, from: u64, last_log_index: u64, last_log_term: u64) -> bool {
        &&& (self.voted_for is None || self.voted_for == Some(from))
        &&& up_to_date(
            last_log_term as int,
            last_log_index as int,
            last_term_of(self.log@),
            self.log@.len() as int,
        )
    }

    /// What `step` answers to a binding `RequestVote` carried in a
    /// message with term `term`: stale terms are refused outright, a
    /// strictly higher term first clears the bound vote, and then the
    /// per-term grant rule applies.
    pub open spec fn grants_vote_to(
        self,
        from: u64,
        term: u64,
        last_log_index: u64,
        last_log_term: u64,
    ) -> bool {
        &&& term >= self.current_term
        &&& (term > self.current_term || self.voted_for is None || self.voted_for == Some(from))
        &&& up_to_date(
            last_log_term as int,
            last_log_index as int,
            last_term_of(self.log@),
            self.log@.len() as int,
        )
    }

    /// The pre-vote grant rule: the same up-to-date comparison against the
    /// prospective term, with no vote bound and no term advanced.
    pub open spec fn prevote_grant(self, term: u64, last_log_index: u64, last_log_term: u64) -> bool {
        &&& term >= self.current_term
        &&& up_to_date(
            last_log_term as int,
            last_log_index as int,
            last_term_of(self.log@),
            self.log@.len() as int,
        )
    }

    /// Whether a candidate log summary is at least as up to date as ours.
    pub fn log_up_to_date(&self, last_log_index: u64, last_log_term: u64) -> (r: bool)
        requires
            self.wf(),
        ensures
            r == up_to_date(
                last_log_term as int,
                last_log_index as int,
                last_term_of(self.log@),
                self.log@.len() as int,
            ),
    {
        let mine_term = self.log.last_term();
        let mine_index = self.log.last_index();
        last_log_term > mine_term || (last_log_term == mine_term && last_log_index >= mine_index)
    }

    /// Steps down to Follower at `term`: candidate and leader bookkeeping
    /// is dropped, the vote is cleared when the term advances (and only
    /// then), and the election timer restarts with a fresh randomized
    /// timeout.
    pub fn become_follower(&mut self, term: u64)
        requires
            old(self).wf(),
            term >= old(self).current_term,
        ensures
            final(self).wf(),
            Self::same_config(*old(self), *final(self)),
            Self::same_log_state(*old(self), *final(self)),
            final(self).role == Role::Follower,
            final(self).current_term == term,
            final(self).voted_for == if term > old(self).current_term {
                None::<u64>
            } else {
                old(self).voted_for
            },
            final(self).election_elapsed == 0,
            final(self).heartbeat_elapsed == 0,
            final(self).votes_granted@.len() == 0,
            final(self).next_index@ == old(self).next_index@,
            final(self).match_index@ == old(self).match_index@,
    {
        if term > self.current_term {
            self.current_term = term;
            self.voted_for = None;
        }
        self.role = Role::Follower;
        self.votes_granted = Vec::new();
        self.heartbeat_elapsed = 0;
        let (nrng, t) = draw_timeout(self.rng, self.election_timeout_min, self.election_timeout_max);
        self.rng = nrng;
        self.election_timeout = t;
        self.election_elapsed = 0;
    }

    /// Answers a `PreVote` probe for prospective term `term`. Grants
    /// exactly when `term` is not behind our own and the probing log is at
    /// least as up to date as ours; binds no vote and changes no state. A
    /// granted answer echoes the probed term; a rejection carries our own
    /// term.
    pub fn handle_pre_vote(
        &self,
        from: u64,
        term: u64,
        last_log_index: u64,
        last_log_term: u64,
    ) -> (r: Vec<OutboundMessage>)
        requires
            self.wf(),
            self.is_peer(from),
        ensures
            r@.len() == 1,
            r@[0].to == from,
            r@[0].message.from == self.id,
            r@[0].message.kind matches MessageKind::PreVoteResponse { granted }
                && granted == self.prevote_grant(term, last_log_index, last_log_term),
            r@[0].message.term == if self.prevote_grant(term, last_log_index, last_log_term) {
                term
            } else {
                self.current_term
            },
    {
        let granted = term >= self.current_term && self.log_up_to_date(
            last_log_index,
            last_log_term,
        );
        let reply_term = if granted {
            term
        } else {
            self.current_term
        };
        let mut out: Vec<OutboundMessage> = Vec::new();
        out.push(OutboundMessage {
            to: from,
            message: Message {
                from: self.id,
                term: reply_term,
                kind: MessageKind::PreVoteResponse { granted },
            },
        });
        out
    }

    /// Answers a binding `RequestVote` at our own term (the caller has
    /// already aligned terms and rejected stale requests). Grants exactly
    /// when no vote is bound to another candidate this term and the
    /// candidate's log is at least as up to date as ours; a grant binds
    /// the vote and resets the election timer.
    pub fn handle_request_vote(
        &mut self,
        from: u64,
        last_log_index: u64,
        last_log_term: u64,
    ) -> (r: Vec<OutboundMessage>)
        requires
            old(self).wf(),
            old(self).is_peer(from),
        ensures
            final(self).wf(),
            Self::same_config(*old(self), *final(self)),
            Self::same_log_state(*old(self), *final(self)),
            final(self).role == old(self).role,
            final(self).current_term == old(self).current_term,
            final(self).voted_for == if old(self).vote_grant(from, last_log_index, last_log_term) {
                Some(from)
            } else {
                old(self).voted_for
            },
            old(self).voted_for is Some ==> final(self).voted_for == old(self).voted_for,
            final(self).votes_granted@ == old(self).votes_granted@,
            final(self).next_index@ == old(self).next_index@,
            final(self).match_index@ == old(self).match_index@,
            final(self).heartbeat_elapsed == old(self).heartbeat_elapsed,
            r@.len() == 1,
            r@[0].to == from,
            r@[0].message.from == old(self).id,
            r@[0].message.term == old(self).current_term,
            r@[0].message.kind matches MessageKind::RequestVoteResponse { granted }
                && granted == old(self).vote_grant(from, last_log_index, last_log_term),
    {
        let open_vote = match self.voted_for {
            None => true,
            Some(v) => v == from,
        };
        let granted = open_vote && self.log_up_to_date(last_log_index, last_log_term);
        if granted {
            self.voted_for = Some(from);
            let (nrng, t) = draw_timeout(
                self.rng,
                self.election_timeout_min,
                self.election_timeout_max,
            );
            self.rng = nrng;
            self.election_timeout = t;
            self.election_elapsed = 0;
        }
        let mut out: Vec<OutboundMessage> = Vec::new();
        out.push(OutboundMessage {
            to: from,
            message: Message {
                from: self.id,
                term: self.current_term,
                kind: MessageKind::RequestVoteResponse { granted },
            },
        });
        out
    }

    /// Whether the (`prev_index`, `prev_term`) anchor of a replication
    /// batch matches our log: the anchor position exists (0 names the
    /// empty prefix) and holds the anchor term.
    pub open spec fn anchor_ok(self, prev_index: u64, prev_term: u64) -> bool {
        &&& prev_index as int <= self.log@.len()
        &&& (prev_index == 0 || self.log@[prev_index as int - 1].term == prev_term as int)
    }

    /// Whether a replication batch is well shaped for us: contiguous from
    /// its anchor, terms sorted, and no term beyond our own (a leader
    /// never ships entries from a later term than its own).
    pub open spec fn batch_acceptable(
        self,
        prev_log_index: u64,
        prev_log_term: u64,
        es: Seq<crate::log::EntryModel>,
    ) -> bool {
        &&& extension_ok(prev_log_index as int, prev_log_term as int, es)
        &&& (es.len() == 0 || es.last().term <= self.current_term as int)
    }

    /// Applies `AppendEntries` from the leader `from` at our own term
    /// (the caller has already aligned terms and rejected stale
    /// requests). A candidate or pre-candidate steps down to Follower; a
    /// follower resets its election timer. A malformed batch or a
    /// mismatched anchor is rejected with a backward-retry hint and
    /// changes no log state; a matching anchor grafts the batch onto the
    /// log and may advance the commit index up to the leader's. An
    /// attempt to overwrite a committed entry is refused as fatal.
    #[verifier::rlimit(100)]
    pub fn handle_append_entries(
        &mut self,
        from: u64,
        prev_log_index: u64,
        prev_log_term: u64,
        entries: Vec<LogEntry>,
        leader_commit: u64,
    ) -> (r: Result<Vec<OutboundMessage>, RaftError>)
        requires
            old(self).wf(),
            old(self).is_peer(from),
        ensures
            final(self).wf(),
            Self::same_config(*old(self), *final(self)),
            final(self).current_term == old(self).current_term,
            final(self).voted_for == old(self).voted_for,
            final(self).commit_index >= old(self).commit_index,
            final(self).last_applied == old(self).last_applied,
            final(self).log@.subrange(0, old(self).commit_index as int) == old(self).log@.subrange(
                0,
                old(self).commit_index as int,
            ),
            old(self).role == Role::Leader ==> *final(self) == *old(self),
            old(self).role != Role::Leader ==> final(self).role == Role::Follower
                && final(self).election_elapsed == 0,
            r is Err <==> (old(self).role != Role::Leader && old(self).batch_acceptable(
                prev_log_index,
                prev_log_term,
                models_of(entries@),
            ) && old(self).anchor_ok(prev_log_index, prev_log_term) && batch_conflicts_with_commit(
                old(self).log@,
                prev_log_index as int,
                models_of(entries@),
                old(self).commit_index as int,
            )),
            r is Err ==> r == Err::<Vec<OutboundMessage>, RaftError>(RaftError::TruncationViolation)
                && final(self).log@ == old(self).log@ && final(self).commit_index == old(self).commit_index,
            r matches Ok(out) ==> {
                &&& out@.len() == 1
                &&& out@[0].to == from
                &&& out@[0].message.from == old(self).id
                &&& out@[0].message.term == old(self).current_term
                &&& (out@[0].message.kind matches MessageKind::AppendEntriesResponse {
                    success,
                    match_hint,
                } ==> {
                    &&& success == (old(self).role != Role::Leader && old(self).batch_acceptable(
                        prev_log_index,
                        prev_log_term,
                        models_of(entries@),
                    ) && old(self).anchor_ok(prev_log_index, prev_log_term))
                    &&& (success ==> {
                        &&& match_hint as int == prev_log_index + entries@.len()
                        &&& final(self).log@ == graft(
                            old(self).log@,
                            prev_log_index as int,
                            models_of(entries@),
                        )
                        &&& final(self).commit_index as int == if old(self).commit_index as int
                            >= vstd::math::min(leader_commit as int, final(self).log@.len() as int) {
                            old(self).commit_index as int
                        } else {
                            vstd::math::min(leader_commit as int, final(self).log@.len() as int)
                        }
                    })
                    &&& (!success ==> {
                        &&& final(self).log@ == old(self).log@
                        &&& final(self).commit_index == old(self).commit_index
                        &&& match_hint as int == if old(self).role != Role::Leader && old(self).batch_acceptable(prev_log_index, prev_log_term, models_of(entries@))
                            && prev_log_index as int <= old(self).log@.len() {
                            prev_log_index - 1
                        } else {
                            old(self).log@.len() as int
                        }
                    })
                })
                &&& (out@[0].message.kind matches MessageKind::AppendEntriesResponse { .. })
            },
    {
        let ghost pre = *self;
        if self.role == Role::Leader {
            let last = self.log.last_index();
            return Ok(self.reply_append(from, false, last));
        }
        let shape = batch_shape_ok(prev_log_index, prev_log_term, &entries) && (entries.len()
            == 0 || entries[entries.len() - 1].term <= self.current_term);
        proof {
            if entries@.len() > 0 {
                assert(models_of(entries@).last() == models_of(entries@)[entries@.len() - 1]);
                assert(models_of(entries@)[entries@.len() - 1] == entries@[entries@.len() - 1]@);
            }
        }
        self.become_follower(self.current_term);
        let last = self.log.last_index();
        if !shape || prev_log_index > last {
            return Ok(self.reply_append(from, false, last));
        }
        if prev_log_index >= 1 && self.log.term_at(prev_log_index) != prev_log_term {
            proof {
                assert(!pre.anchor_ok(prev_log_index, prev_log_term));
            }
            return Ok(self.reply_append(from, false, prev_log_index - 1));
        }
        let hint = prev_log_index + (entries.len() as u64);
        match self.apply_batch(prev_log_index, prev_log_term, entries, leader_commit) {
            Ok(()) => Ok(self.reply_append(from, true, hint)),
            Err(e) => Err(e),
        }
    }

    /// Grafts a well-shaped batch with a matching anchor onto the log:
    /// entries already present with the same term are kept, the divergent
    /// suffix is replaced, and the commit index is advanced up to the
    /// leader's, bounded by the log. Refuses, as fatal, a batch that
    /// contradicts a committed entry.
    #[verifier::rlimit(100)]
    fn apply_batch(
        &mut self,
        prev_log_index: u64,
        prev_log_term: u64,
        entries: Vec<LogEntry>,
        leader_commit: u64,
    ) -> (r: Result<(), RaftError>)
        requires
            old(self).wf(),
            old(self).batch_acceptable(prev_log_index, prev_log_term, models_of(entries@)),
            old(self).anchor_ok(prev_log_index, prev_log_term),
        ensures
            final(self).wf(),
            Self::same_config(*old(self), *final(self)),
            final(self).role == old(self).role,
            final(self).current_term == old(self).current_term,
            final(self).voted_for == old(self).voted_for,
            final(self).last_applied == old(self).last_applied,
            final(self).election_elapsed == old(self).election_elapsed,
            final(self).election_timeout == old(self).election_timeout,
            final(self).heartbeat_elapsed == old(self).heartbeat_elapsed,
            final(self).rng == old(self).rng,
            final(self).votes_granted@ == old(self).votes_granted@,
            final(self).next_index@ == old(self).next_index@,
            final(self).match_index@ == old(self).match_index@,
            final(self).commit_index >= old(self).commit_index,
            final(self).log@.subrange(0, old(self).commit_index as int) == old(self).log@.subrange(
                0,
                old(self).commit_index as int,
            ),
            r is Err <==> batch_conflicts_with_commit(
                old(self).log@,
                prev_log_index as int,
                models_of(entries@),
                old(self).commit_index as int,
            ),
            r is Err ==> r == Err::<(), RaftError>(RaftError::TruncationViolation)
                && final(self).log@ == old(self).log@
                && final(self).commit_index == old(self).commit_index,
            r is Ok ==> {
                &&& final(self).log@ == graft(
                    old(self).log@,
                    prev_log_index as int,
                    models_of(entries@),
                )
                &&& final(self).commit_index as int == if old(self).commit_index as int
                    >= vstd::math::min(leader_commit as int, final(self).log@.len() as int) {
                    old(self).commit_index as int
                } else {
                    vstd::math::min(leader_commit as int, final(self).log@.len() as int)
                }
            },
    {
        let ghost pre = *old(self);
        let n = entries.len();
        let ghost es = models_of(entries@);
        let k = scan_match(&self.log, prev_log_index, &entries);
        proof {
            lemma_graft_skip(pre.log@, prev_log_index as int, es, k as int);
            lemma_conflict_skip(
                pre.log@,
                prev_log_index as int,
                es,
                pre.commit_index as int,
                k as int,
            );
            assert(es.subrange(k as int, n as int).len() == n - k);
        }
        if k < n {
            let idx = prev_log_index + 1 + (k as u64);
            let within = idx <= self.log.last_index();
            if within && idx <= self.commit_index {
                // A leader at our own term contradicts a committed entry:
                // a protocol violation, refused as fatal.
                return Err(RaftError::TruncationViolation);
            }
            if within {
                let tr = self.log.truncate_from(idx, self.commit_index);
                proof {
                    assert(tr is Ok);
                }
            }
            proof {
                if k > 0 {
                    assert(pre.log@[prev_log_index + (k - 1)].term == es[k - 1].term);
                }
                assert(prev_log_index + k <= pre.log@.len());
                assert(self.log@ =~= pre.log@.subrange(0, prev_log_index + k));
                let tail = es.subrange(k as int, n as int);
                assert(graft(pre.log@, prev_log_index as int + k, tail) == pre.log@.subrange(
                    0,
                    prev_log_index + k,
                ) + tail) by {
                    if prev_log_index + k + 1 <= pre.log@.len() {
                        assert(pre.log@[prev_log_index as int + k].term != tail[0].term);
                    }
                }
            }
            // Copy the remaining batch entries and append them.
            let mut suffix: Vec<LogEntry> = Vec::new();
            let mut j: usize = k;
            while j < n
                invariant
                    k <= j <= n,
                    n == entries@.len(),
                    es == models_of(entries@),
                    suffix@.len() == j - k,
                    forall|t: int| 0 <= t < j - k ==> (#[trigger] models_of(suffix@)[t]) == es[
                        k + t],
                decreases n - j,
            {
                let copied = crate::log::clone_entry(&entries[j]);
                let ghost sfx0 = suffix@;
                suffix.push(copied);
                proof {
                    assert forall|t: int| 0 <= t < (j + 1) - k implies (
                    #[trigger] models_of(suffix@)[t]) == es[k + t] by {
                        if t < j - k {
                            assert(suffix@[t] == sfx0[t]);
                            assert(models_of(sfx0)[t] == es[k + t]);
                        } else {
                            assert(suffix@[t] == copied);
                            assert(es[j as int] == entries@[j as int]@);
                        }
                    }
                }
                j = j + 1;
            }
            proof {
                assert(models_of(suffix@) =~= es.subrange(k as int, n as int));
                let cur = self.log@;
                let tail = es.subrange(k as int, n as int);
                assert(entries_wf(cur + tail)) by {
                    assert forall|i: int| 0 <= i < (cur + tail).len() implies (#[trigger] (cur
                        + tail)[i]).index == i + 1 by {}
                    assert forall|i: int, j2: int| 0 <= i <= j2 < (cur + tail).len() implies (
                    #[trigger] (cur + tail)[i]).term <= (#[trigger] (cur + tail)[j2]).term by {
                        if i < cur.len() && j2 >= cur.len() {
                            assert((cur + tail)[j2] == tail[j2 - cur.len()]);
                            assert(tail[0].term <= tail[j2 - cur.len()].term);
                            if k > 0 {
                                assert(cur[i].term <= cur[cur.len() - 1].term);
                                assert(cur[cur.len() - 1] == pre.log@[prev_log_index + k - 1]);
                                assert(pre.log@[prev_log_index + k - 1].term == es[k - 1].term);
                                assert(es[k - 1].term <= es[k as int].term);
                            } else if prev_log_index >= 1 {
                                assert(cur[i].term <= cur[cur.len() - 1].term);
                                assert(cur[cur.len() - 1] == pre.log@[prev_log_index - 1]);
                            }
                        }
                    }
                }
            }
            self.log.append(suffix);
            proof {
                let merged = self.log@;
                let tail = es.subrange(k as int, n as int);
                assert(merged.last() == tail[tail.len() - 1]);
                assert(tail[tail.len() - 1] == es[n - 1]);
                assert(es.last() == es[n - 1]);
            }
        } else {
            proof {
                assert(es.subrange(k as int, n as int) =~= Seq::<crate::log::EntryModel>::empty());
                assert(graft(pre.log@, prev_log_index as int, es) == pre.log@);
            }
        }
        proof {
            assert(self.log@ == graft(pre.log@, prev_log_index as int, es));
            assert(self.log@.subrange(0, pre.commit_index as int) =~= pre.log@.subrange(
                0,
                pre.commit_index as int,
            ));
        }
        // Advance the commit index up to the leader's, bounded by our log.
        let new_last = self.log.last_index();
        if leader_commit > self.commit_index {
            let m = if leader_commit < new_last {
                leader_commit
            } else {
                new_last
            };
            if m > self.commit_index {
                self.commit_index = m;
            }
        }
        Ok(())
    }

    /// Applies a `Heartbeat` from the leader `from` at our own term: an
    /// empty `AppendEntries` that asserts authority. A candidate or
    /// pre-candidate steps down; the election timer resets; the commit
    /// index advances up to the leader's, bounded by our log. No response
    /// is owed.
    pub fn handle_heartbeat(&mut self, from: u64, leader_commit: u64) -> (r: Vec<OutboundMessage>)
        requires
            old(self).wf(),
            old(self).is_peer(from),
        ensures
            final(self).wf(),
            Self::same_config(*old(self), *final(self)),
            final(self).current_term == old(self).current_term,
            final(self).voted_for == old(self).voted_for,
            final(self).log@ == old(self).log@,
            final(self).last_applied == old(self).last_applied,
            old(self).role == Role::Leader ==> *final(self) == *old(self),
            old(self).role != Role::Leader ==> {
                &&& final(self).role == Role::Follower
                &&& final(self).election_elapsed == 0
                &&& final(self).commit_index as int == if old(self).commit_index as int
                    >= vstd::math::min(leader_commit as int, old(self).log@.len() as int) {
                    old(self).commit_index as int
                } else {
                    vstd::math::min(leader_commit as int, old(self).log@.len() as int)
                }
            },
            r@.len() == 0,
    {
        if self.role == Role::Leader {
            return Vec::new();
        }
        self.become_follower(self.current_term);
        let last = self.log.last_index();
        if leader_commit > self.commit_index {
            let m = if leader_commit < last {
                leader_commit
            } else {
                last
            };
            if m > self.commit_index {
                self.commit_index = m;
            }
        }
        Vec::new()
    }

    /// Records a `RequestVoteResponse` at our own term. Only a Candidate
    /// counts votes; a majority of grants (own vote included) makes it
    /// Leader, which immediately asserts authority with a heartbeat to
    /// every peer.
    pub fn handle_request_vote_response(&mut self, from: u64, granted: bool) -> (r: Vec<
        OutboundMessage,
    >)
        requires
            old(self).wf(),
            old(self).is_peer(from),
        ensures
            final(self).wf(),
            Self::same_config(*old(self), *final(self)),
            Self::same_log_state(*old(self), *final(self)),
            final(self).current_term == old(self).current_term,
            final(self).voted_for == old(self).voted_for,
            old(self).role != Role::Candidate ==> *final(self) == *old(self) && r@.len() == 0,
            old(self).role == Role::Candidate ==> final(self).votes_granted@ == if granted
                && !seq_contains(old(self).votes_granted@, from) {
                old(self).votes_granted@.push(from)
            } else {
                old(self).votes_granted@
            },
            old(self).role == Role::Candidate && granted && 2 * final(self).votes_granted@.len() > old(self).cluster_size() ==> final(self).role == Role::Leader,
            final(self).role != Role::Leader ==> r@.len() == 0,
            final(self).role == Role::Leader || final(self).role == old(self).role,
            final(self).role == Role::Leader && old(self).role != Role::Leader ==> {
                &&& old(self).role == Role::Candidate
                &&& 2 * final(self).votes_granted@.len() > old(self).cluster_size()
                &&& r@.len() == old(self).peers@.len()
                &&& forall|i: int| 0 <= i < r@.len() ==> {
                    &&& (#[trigger] r@[i]).to == old(self).peers@[i]
                    &&& r@[i].message.from == old(self).id
                    &&& r@[i].message.term == old(self).current_term
                    &&& (r@[i].message.kind matches MessageKind::Heartbeat { leader_commit }
                        && leader_commit == old(self).commit_index)
                }
            },
    {
        if self.role != Role::Candidate {
            return Vec::new();
        }
        if granted && !contains_id(&self.votes_granted, from) {
            self.votes_granted.push(from);
        }
        if granted && 2 * (self.votes_granted.len() as u128) > (self.peers.len() as u128) + 1 {
            return self.become_leader();
        }
        Vec::new()
    }

    /// Records a `PreVoteResponse` for the probed term (our term plus
    /// one). Only a PreCandidate counts them; a majority of grants (own
    /// implicit grant included) starts the real election: the term
    /// advances by one, the vote binds to ourselves, and a binding
    /// `RequestVote` goes to every peer.
    pub fn handle_pre_vote_response(&mut self, from: u64, granted: bool) -> (r: Vec<
        OutboundMessage,
    >)
        requires
            old(self).wf(),
            old(self).is_peer(from),
            old(self).current_term < u64::MAX,
        ensures
            final(self).wf(),
            Self::same_config(*old(self), *final(self)),
            Self::same_log_state(*old(self), *final(self)),
            old(self).role != Role::PreCandidate ==> *final(self) == *old(self) && r@.len() == 0,
            old(self).role == Role::PreCandidate && final(self).role == Role::PreCandidate
                ==> final(self).votes_granted@ == if granted && !seq_contains(
                old(self).votes_granted@,
                from,
            ) {
                old(self).votes_granted@.push(from)
            } else {
                old(self).votes_granted@
            },
            old(self).role == Role::PreCandidate && granted && 2 * (if seq_contains(
                old(self).votes_granted@,
                from,
            ) {
                old(self).votes_granted@.len() as int
            } else {
                old(self).votes_granted@.len() + 1int
            }) > old(self).cluster_size() ==> final(self).current_term == old(self).current_term
                + 1 && final(self).role == Role::Candidate,
            final(self).role == Role::PreCandidate ==> r@.len() == 0,
            final(self).current_term == old(self).current_term || final(self).current_term == old(self).current_term + 1,
            final(self).current_term == old(self).current_term ==> final(self).voted_for == old(self).voted_for,
            final(self).current_term == old(self).current_term + 1 ==> {
                &&& old(self).role == Role::PreCandidate
                &&& final(self).role == Role::Candidate
                &&& final(self).voted_for == Some(old(self).id)
                &&& r@.len() == old(self).peers@.len()
                &&& forall|i: int| 0 <= i < r@.len() ==> {
                    &&& (#[trigger] r@[i]).to == old(self).peers@[i]
                    &&& r@[i].message.from == old(self).id
                    &&& r@[i].message.term == old(self).current_term + 1
                    &&& (r@[i].message.kind matches MessageKind::RequestVote {
                        last_log_index,
                        last_log_term,
                    } && last_log_index as int == old(self).log@.len() && last_log_term as int
                        == last_term_of(old(self).log@))
                }
            },
            final(self).current_term == old(self).current_term && old(self).role
                == Role::PreCandidate ==> final(self).role == Role::PreCandidate,
    {
        if self.role != Role::PreCandidate {
            return Vec::new();
        }
        if granted && !contains_id(&self.votes_granted, from) {
            self.votes_granted.push(from);
        }
        if granted && 2 * (self.votes_granted.len() as u128) > (self.peers.len() as u128) + 1 {
            return self.become_candidate();
        }
        Vec::new()
    }

    /// Starts the binding election round after a successful pre-vote:
    /// advances the term by one, binds the vote to ourselves, restarts
    /// the election timer, and asks every peer for a binding vote.
    pub fn become_candidate(&mut self) -> (r: Vec<OutboundMessage>)
        requires
            old(self).wf(),
            old(self).current_term < u64::MAX,
        ensures
            final(self).wf(),
            Self::same_config(*old(self), *final(self)),
            Self::same_log_state(*old(self), *final(self)),
            final(self).role == Role::Candidate,
            final(self).current_term == old(self).current_term + 1,
            final(self).voted_for == Some(old(self).id),
            final(self).votes_granted@.len() == 1,
            final(self).votes_granted@[0] == old(self).id,
            final(self).election_elapsed == 0,
            final(self).next_index@ == old(self).next_index@,
            final(self).match_index@ == old(self).match_index@,
            r@.len() == old(self).peers@.len(),
            forall|i: int| 0 <= i < r@.len() ==> {
                &&& (#[trigger] r@[i]).to == old(self).peers@[i]
                &&& r@[i].message.from == old(self).id
                &&& r@[i].message.term == old(self).current_term + 1
                &&& (r@[i].message.kind matches MessageKind::RequestVote {
                    last_log_index,
                    last_log_term,
                } && last_log_index as int == old(self).log@.len() && last_log_term as int
                    == last_term_of(old(self).log@))
            },
    {
        self.current_term = self.current_term + 1;
        self.voted_for = Some(self.id);
        self.role = Role::Candidate;
        let mut votes: Vec<u64> = Vec::new();
        votes.push(self.id);
        self.votes_granted = votes;
        let (nrng, t) = draw_timeout(self.rng, self.election_timeout_min, self.election_timeout_max);
        self.rng = nrng;
        self.election_timeout = t;
        self.election_elapsed = 0;
        let last_log_index = self.log.last_index();
        let last_log_term = self.log.last_term();
        let mut out: Vec<OutboundMessage> = Vec::new();
        let mut i: usize = 0;
        while i < self.peers.len()
            invariant
                i <= self.peers@.len(),
                out@.len() == i,
                forall|t2: int| 0 <= t2 < i ==> {
                    &&& (#[trigger] out@[t2]).to == self.peers@[t2]
                    &&& out@[t2].message.from == self.id
                    &&& out@[t2].message.term == self.current_term
                    &&& (out@[t2].message.kind matches MessageKind::RequestVote {
                        last_log_index: lli,
                        last_log_term: llt,
                    } && lli == last_log_index && llt == last_log_term)
                },
            decreases self.peers@.len() - i,
        {
            out.push(OutboundMessage {
                to: self.peers[i],
                message: Message {
                    from: self.id,
                    term: self.current_term,
                    kind: MessageKind::RequestVote { last_log_index, last_log_term },
                },
            });
            i = i + 1;
        }
        out
    }

    /// Takes leadership after a majority of binding votes: replication
    /// progress starts at the end of our log for every peer, and a
    /// heartbeat asserts authority to every peer at once.
    pub fn become_leader(&mut self) -> (r: Vec<OutboundMessage>)
        requires
            old(self).wf(),
            2 * old(self).votes_granted@.len() > old(self).cluster_size(),
        ensures
            final(self).wf(),
            Self::same_config(*old(self), *final(self)),
            Self::same_log_state(*old(self), *final(self)),
            final(self).current_term == old(self).current_term,
            final(self).voted_for == old(self).voted_for,
            final(self).votes_granted@ == old(self).votes_granted@,
            final(self).role == Role::Leader,
            final(self).heartbeat_elapsed == 0,
            forall|i: int| 0 <= i < final(self).next_index@.len() ==> (
            #[trigger] final(self).next_index@[i]) as int == old(self).log@.len() + 1,
            forall|i: int| 0 <= i < final(self).match_index@.len() ==> (
            #[trigger] final(self).match_index@[i]) == 0,
            r@.len() == old(self).peers@.len(),
            forall|i: int| 0 <= i < r@.len() ==> {
                &&& (#[trigger] r@[i]).to == old(self).peers@[i]
                &&& r@[i].message.from == old(self).id
                &&& r@[i].message.term == old(self).current_term
                &&& (r@[i].message.kind matches MessageKind::Heartbeat { leader_commit }
                    && leader_commit == old(self).commit_index)
            },
    {
        self.role = Role::Leader;
        self.heartbeat_elapsed = 0;
        let last = self.log.last_index();
        self.next_index = filled(self.peers.len(), last + 1);
        self.match_index = filled(self.peers.len(), 0);
        let mut out: Vec<OutboundMessage> = Vec::new();
        let mut i: usize = 0;
        while i < self.peers.len()
            invariant
                i <= self.peers@.len(),
                out@.len() == i,
                forall|t2: int| 0 <= t2 < i ==> {
                    &&& (#[trigger] out@[t2]).to == self.peers@[t2]
                    &&& out@[t2].message.from == self.id
                    &&& out@[t2].message.term == self.current_term
                    &&& (out@[t2].message.kind matches MessageKind::Heartbeat { leader_commit }
                        && leader_commit == self.commit_index)
                },
            decreases self.peers@.len() - i,
        {
            out.push(OutboundMessage {
                to: self.peers[i],
                message: Message {
                    from: self.id,
                    term: self.current_term,
                    kind: MessageKind::Heartbeat { leader_commit: self.commit_index },
                },
            });
            i = i + 1;
        }
        out
    }

    /// Whether a majority of the cluster (this node included) is known to
    /// store the log up to and including index `n`.
    pub open spec fn replicated_on_majority(self, n: u64) -> bool {
        2 * (1 + count_ge(self.match_index@, n)) > self.cluster_size()
    }

    /// Advances the commit index to the highest log index that a majority
    /// stores and whose entry carries the leader's own term: entries of
    /// earlier terms are never committed directly, and no qualifying
    /// index is left uncommitted.
    fn maybe_commit(&mut self)
        requires
            old(self).wf(),
        ensures
            final(self).wf(),
            *final(self) == (Node { commit_index: final(self).commit_index, ..*old(self) }),
            final(self).commit_index >= old(self).commit_index,
            final(self).commit_index as int <= final(self).log@.len(),
            final(self).commit_index != old(self).commit_index ==> {
                &&& final(self).log@[final(self).commit_index as int - 1].term
                    == final(self).current_term as int
                &&& final(self).replicated_on_majority(final(self).commit_index)
            },
            forall|m: int|
                final(self).commit_index < m <= final(self).log@.len() ==> !((
                #[trigger] final(self).log@[m - 1]).term == final(self).current_term as int && 2 * (
                1 + count_ge(final(self).match_index@, m as u64)) > final(self).cluster_size()),
    {
        let ghost pre = *old(self);
        let last = self.log.last_index();
        let mut n = last;
        while n > self.commit_index
            invariant
                self.wf(),
                *self == (Node { commit_index: self.commit_index, ..pre }),
                self.commit_index >= pre.commit_index,
                self.commit_index as int <= self.log@.len(),
                n as int <= self.log@.len(),
                n >= self.commit_index,
                self.commit_index != pre.commit_index ==> {
                    &&& self.log@[self.commit_index as int - 1].term == self.current_term as int
                    &&& self.replicated_on_majority(self.commit_index)
                },
                forall|m: int|
                    n < m <= self.log@.len() ==> !((#[trigger] self.log@[m - 1]).term
                        == self.current_term as int && 2 * (1 + count_ge(
                        self.match_index@,
                        m as u64,
                    )) > self.cluster_size()),
            decreases n - self.commit_index,
        {
            let cnt = count_at_least(&self.match_index, n);
            let majority = 2 * ((cnt as u128) + 1) > (self.peers.len() as u128) + 1;
            if majority && self.log.term_at(n) == self.current_term {
                self.commit_index = n;
            } else {
                proof {
                    assert(count_ge(self.match_index@, n) == cnt as int);
                }
                n = n - 1;
            }
        }
    }

    /// Applies an `AppendEntriesResponse` from `from` at our own term.
    /// Only a Leader reacts: a success moves the peer's replication
    /// progress forward and may advance the commit index under the
    /// majority-and-own-term rule; a rejection steps the peer's next
    /// index back toward the hint and immediately retries replication
    /// from there.
    pub fn handle_append_entries_response(
        &mut self,
        from: u64,
        success: bool,
        match_hint: u64,
    ) -> (r: Vec<OutboundMessage>)
        requires
            old(self).wf(),
            old(self).is_peer(from),
        ensures
            final(self).wf(),
            Self::same_config(*old(self), *final(self)),
            final(self).log@ == old(self).log@,
            final(self).last_applied == old(self).last_applied,
            final(self).current_term == old(self).current_term,
            final(self).voted_for == old(self).voted_for,
            final(self).role == old(self).role,
            final(self).commit_index >= old(self).commit_index,
            old(self).role != Role::Leader ==> *final(self) == *old(self) && r@.len() == 0,
            final(self).commit_index != old(self).commit_index ==> {
                &&& final(self).log@[final(self).commit_index as int - 1].term
                    == final(self).current_term as int
                &&& final(self).replicated_on_majority(final(self).commit_index)
            },
            forall|j: int| 0 <= j < old(self).peers@.len() && old(self).peers@[j] != from ==> (
            #[trigger] final(self).next_index@[j]) == old(self).next_index@[j]
                && final(self).match_index@[j] == old(self).match_index@[j],
            success && old(self).role == Role::Leader ==> r@.len() == 0 && forall|j: int|
                0 <= j < old(self).peers@.len() && old(self).peers@[j] == from ==> (
            #[trigger] final(self).match_index@[j]) as int == vstd::math::max(
                old(self).match_index@[j] as int,
                vstd::math::min(match_hint as int, old(self).log@.len() as int),
            ),
            success && old(self).role == Role::Leader ==> forall|m: int|
                final(self).commit_index < m <= final(self).log@.len() ==> !((
            #[trigger] final(self).log@[m - 1]).term == final(self).current_term as int && 2 * (1
                + count_ge(final(self).match_index@, m as u64)) > final(self).cluster_size()),
            !success && old(self).role == Role::Leader ==> {
                &&& final(self).commit_index == old(self).commit_index
                &&& r@.len() == 1
                &&& r@[0].to == from
                &&& r@[0].message.from == old(self).id
                &&& r@[0].message.term == old(self).current_term
                &&& (r@[0].message.kind matches MessageKind::AppendEntries {
                    prev_log_index,
                    prev_log_term,
                    entries,
                    leader_commit,
                } && {
                    &&& leader_commit == old(self).commit_index
                    &&& prev_log_index as int <= old(self).log@.len()
                    &&& prev_log_term as int == if prev_log_index == 0 {
                        0
                    } else {
                        old(self).log@[prev_log_index as int - 1].term
                    }
                    &&& models_of(entries@) =~= old(self).log@.subrange(
                        prev_log_index as int,
                        old(self).log@.len() as int,
                    )
                    &&& forall|j: int| 0 <= j < old(self).peers@.len() && old(self).peers@[j]
                        == from ==> (#[trigger] final(self).next_index@[j]) == prev_log_index + 1
                })
            },
    {
        if self.role != Role::Leader {
            return Vec::new();
        }
        let slot = index_of(&self.peers, from);
        if success {
            let last = self.log.last_index();
            let m = if match_hint < last {
                match_hint
            } else {
                last
            };
            if m > self.match_index[slot] {
                self.match_index.set(slot, m);
            }
            if m >= self.next_index[slot] {
                self.next_index.set(slot, m + 1);
            }
            self.maybe_commit();
            proof {
                assert forall|j: int|
                    0 <= j < old(self).peers@.len() && old(self).peers@[j] != from implies (
                #[trigger] self.next_index@[j]) == old(self).next_index@[j] && self.match_index@[j]
                    == old(self).match_index@[j] by {
                    assert(j != slot);
                }
            }
            Vec::new()
        } else {
            // Step the peer's next index back toward the hint, floor 1,
            // and retry replication from there at once.
            let cur = self.next_index[slot];
            let mut nf = cur - 1;
            if match_hint < nf {
                nf = match_hint + 1;
                if nf > cur - 1 {
                    nf = cur - 1;
                }
            }
            if nf < 1 {
                nf = 1;
            }
            let last = self.log.last_index();
            if nf > last + 1 {
                nf = last + 1;
            }
            self.next_index.set(slot, nf);
            proof {
                assert forall|j: int|
                    0 <= j < old(self).peers@.len() && old(self).peers@[j] != from implies (
                #[trigger] self.next_index@[j]) == old(self).next_index@[j] && self.match_index@[j]
                    == old(self).match_index@[j] by {
                    assert(j != slot);
                }
                assert forall|j: int|
                    0 <= j < old(self).peers@.len() && old(self).peers@[j] == from implies (
                #[trigger] self.next_index@[j]) == nf by {
                    if j != slot as int {
                        assert(old(self).peers@[j] != old(self).peers@[slot as int]);
                    }
                }
            }
            let prev = nf - 1;
            let prev_term = self.log.term_at(prev);
            let batch = collect_entries(&self.log, nf);
            let mut out: Vec<OutboundMessage> = Vec::new();
            out.push(OutboundMessage {
                to: from,
                message: Message {
                    from: self.id,
                    term: self.current_term,
                    kind: MessageKind::AppendEntries {
                        prev_log_index: prev,
                        prev_log_term: prev_term,
                        entries: batch,
                        leader_commit: self.commit_index,
                    },
                },
            });
            out
        }
    }

    /// Advances logical time by one tick. A Leader counts toward its
    /// heartbeat interval and, when it elapses, broadcasts replication
    /// (entries for peers that lag, a bare heartbeat otherwise) and
    /// restarts the countdown. Any other role counts toward its
    /// randomized election timeout; when it elapses, a Follower opens a
    /// pre-vote round (or, with no peers, takes leadership outright on
    /// its trivial majority of one, with no vote round trips), while a
    /// Candidate or PreCandidate whose round has stalled steps back to
    /// Follower under a fresh randomized timeout.
    pub fn tick(&mut self) -> (r: Vec<OutboundMessage>)
        requires
            old(self).wf(),
        ensures
            final(self).wf(),
            Self::same_config(*old(self), *final(self)),
            final(self).current_term >= old(self).current_term,
            final(self).commit_index == old(self).commit_index,
            final(self).log@ == old(self).log@,
            final(self).last_applied == old(self).last_applied,
            old(self).role == Role::Leader && old(self).heartbeat_elapsed + 1 < old(self).heartbeat_interval ==> r@.len() == 0 && *final(self) == (Node {
                heartbeat_elapsed: (old(self).heartbeat_elapsed + 1) as u64,
                ..*old(self)
            }),
            old(self).role == Role::Leader && old(self).heartbeat_elapsed + 1 >= old(self).heartbeat_interval ==> {
                &&& final(self).heartbeat_elapsed == 0
                &&& final(self).role == Role::Leader
                &&& final(self).current_term == old(self).current_term
                &&& final(self).voted_for == old(self).voted_for
                &&& r@.len() == old(self).peers@.len()
                &&& forall|i: int| 0 <= i < r@.len() ==> {
                    &&& (#[trigger] r@[i]).to == old(self).peers@[i]
                    &&& r@[i].message.from == old(self).id
                    &&& r@[i].message.term == old(self).current_term
                    &&& (old(self).next_index@[i] as int <= old(self).log@.len() ==> (
                    r@[i].message.kind matches MessageKind::AppendEntries {
                        prev_log_index,
                        prev_log_term,
                        entries,
                        leader_commit,
                    } && {
                        &&& leader_commit == old(self).commit_index
                        &&& prev_log_index as int == old(self).next_index@[i] - 1
                        &&& prev_log_term as int == if prev_log_index == 0 {
                            0
                        } else {
                            old(self).log@[prev_log_index as int - 1].term
                        }
                        &&& models_of(entries@) =~= old(self).log@.subrange(
                            prev_log_index as int,
                            old(self).log@.len() as int,
                        )
                    }))
                    &&& (old(self).next_index@[i] as int > old(self).log@.len() ==> (
                    r@[i].message.kind matches MessageKind::Heartbeat { leader_commit }
                        && leader_commit == old(self).commit_index))
                }
            },
            old(self).role != Role::Leader && old(self).election_elapsed + 1 < old(self).election_timeout ==> r@.len() == 0 && *final(self) == (Node {
                election_elapsed: (old(self).election_elapsed + 1) as u64,
                ..*old(self)
            }),
            (old(self).role == Role::Candidate || old(self).role == Role::PreCandidate) && old(self).election_elapsed + 1 >= old(self).election_timeout ==> final(self).role
                == Role::Follower && final(self).current_term == old(self).current_term && final(self).voted_for == old(self).voted_for && r@.len() == 0,
            old(self).role == Role::Follower && old(self).election_elapsed + 1 >= old(self).election_timeout && old(self).peers@.len() == 0 && old(self).current_term
                < u64::MAX ==> {
                &&& final(self).role == Role::Leader
                &&& final(self).current_term == old(self).current_term + 1
                &&& final(self).voted_for == Some(old(self).id)
                &&& r@.len() == 0
            },
            old(self).role == Role::Follower && old(self).election_elapsed + 1 >= old(self).election_timeout && old(self).peers@.len() > 0 && old(self).current_term
                < u64::MAX ==> {
                &&& final(self).role == Role::PreCandidate
                &&& final(self).current_term == old(self).current_term
                &&& final(self).voted_for == old(self).voted_for
                &&& r@.len() == old(self).peers@.len()
                &&& forall|i: int| 0 <= i < r@.len() ==> {
                    &&& (#[trigger] r@[i]).to == old(self).peers@[i]
                    &&& r@[i].message.from == old(self).id
                    &&& r@[i].message.term == old(self).current_term + 1
                    &&& (r@[i].message.kind matches MessageKind::PreVote {
                        last_log_index,
                        last_log_term,
                    } && last_log_index as int == old(self).log@.len() && last_log_term as int
                        == last_term_of(old(self).log@))
                }
            },
    {
        if self.role == Role::Leader {
            if self.heartbeat_elapsed >= self.heartbeat_interval - 1 {
                self.heartbeat_elapsed = 0;
                let last = self.log.last_index();
                let mut out: Vec<OutboundMessage> = Vec::new();
                let mut i: usize = 0;
                while i < self.peers.len()
                    invariant
                        self.wf(),
                        last as int == self.log@.len(),
                        i <= self.peers@.len(),
                        out@.len() == i,
                        forall|t2: int| 0 <= t2 < i ==> {
                            &&& (#[trigger] out@[t2]).to == self.peers@[t2]
                            &&& out@[t2].message.from == self.id
                            &&& out@[t2].message.term == self.current_term
                            &&& (self.next_index@[t2] as int <= self.log@.len() ==> (
                            out@[t2].message.kind matches MessageKind::AppendEntries {
                                prev_log_index,
                                prev_log_term,
                                entries,
                                leader_commit,
                            } && {
                                &&& leader_commit == self.commit_index
                                &&& prev_log_index as int == self.next_index@[t2] - 1
                                &&& prev_log_term as int == if prev_log_index == 0 {
                                    0
                                } else {
                                    self.log@[prev_log_index as int - 1].term
                                }
                                &&& models_of(entries@) =~= self.log@.subrange(
                                    prev_log_index as int,
                                    self.log@.len() as int,
                                )
                            }))
                            &&& (self.next_index@[t2] as int > self.log@.len() ==> (
                            out@[t2].message.kind matches MessageKind::Heartbeat { leader_commit }
                                && leader_commit == self.commit_index))
                        },
                    decreases self.peers@.len() - i,
                {
                    let nx = self.next_index[i];
                    let kind = if nx <= last {
                        let prev = nx - 1;
                        let prev_term = self.log.term_at(prev);
                        let batch = collect_entries(&self.log, nx);
                        MessageKind::AppendEntries {
                            prev_log_index: prev,
                            prev_log_term: prev_term,
                            entries: batch,
                            leader_commit: self.commit_index,
                        }
                    } else {
                        MessageKind::Heartbeat { leader_commit: self.commit_index }
                    };
                    out.push(OutboundMessage {
                        to: self.peers[i],
                        message: Message { from: self.id, term: self.current_term, kind },
                    });
                    i = i + 1;
                }
                return out;
            }
            self.heartbeat_elapsed = self.heartbeat_elapsed + 1;
            return Vec::new();
        }
        if self.election_elapsed < self.election_timeout - 1 {
            self.election_elapsed = self.election_elapsed + 1;
            return Vec::new();
        }
        // The election timeout elapsed.
        if self.role == Role::Candidate || self.role == Role::PreCandidate {
            self.become_follower(self.current_term);
            return Vec::new();
        }
        if self.current_term == u64::MAX {
            self.become_follower(self.current_term);
            return Vec::new();
        }
        self.role = Role::PreCandidate;
        let mut votes: Vec<u64> = Vec::new();
        votes.push(self.id);
        self.votes_granted = votes;
        let (nrng, t) = draw_timeout(self.rng, self.election_timeout_min, self.election_timeout_max);
        self.rng = nrng;
        self.election_timeout = t;
        self.election_elapsed = 0;
        if self.peers.len() == 0 {
            self.become_candidate();
            return self.become_leader();
        }
        let last_log_index = self.log.last_index();
        let last_log_term = self.log.last_term();
        let probe_term = self.current_term + 1;
        let mut out: Vec<OutboundMessage> = Vec::new();
        let mut i: usize = 0;
        while i < self.peers.len()
            invariant
                i <= self.peers@.len(),
                out@.len() == i,
                last_log_index as int == self.log@.len(),
                last_log_term as int == last_term_of(self.log@),
                probe_term == self.current_term + 1,
                forall|t2: int| 0 <= t2 < i ==> {
                    &&& (#[trigger] out@[t2]).to == self.peers@[t2]
                    &&& out@[t2].message.from == self.id
                    &&& out@[t2].message.term == probe_term
                    &&& (out@[t2].message.kind matches MessageKind::PreVote {
                        last_log_index: lli,
                        last_log_term: llt,
                    } && lli == last_log_index && llt == last_log_term)
                },
            decreases self.peers@.len() - i,
        {
            out.push(OutboundMessage {
                to: self.peers[i],
                message: Message {
                    from: self.id,
                    term: probe_term,
                    kind: MessageKind::PreVote { last_log_index, last_log_term },
                },
            });
            i = i + 1;
        }
        out
    }

    /// Appends a client proposal to the log at the current term and
    /// returns its index; a non-Leader refuses with `NotLeader` and
    /// changes nothing. With no peers the trivial majority of one commits
    /// the entry at once; otherwise commitment follows replication.
    pub fn propose_if_leader(&mut self, payload: Vec<u8>) -> (r: Result<u64, RaftError>)
        requires
            old(self).wf(),
            old(self).log@.len() + 1 < u64::MAX,
        ensures
            final(self).wf(),
            Self::same_config(*old(self), *final(self)),
            final(self).current_term == old(self).current_term,
            final(self).voted_for == old(self).voted_for,
            final(self).role == old(self).role,
            final(self).last_applied == old(self).last_applied,
            r is Ok <==> old(self).role == Role::Leader,
            r is Err ==> r == Err::<u64, RaftError>(RaftError::NotLeader) && *final(self) == *old(self),
            r matches Ok(idx) ==> {
                &&& idx as int == old(self).log@.len() + 1
                &&& final(self).log@ == old(self).log@ + seq![
                    crate::log::EntryModel {
                        index: idx as int,
                        term: old(self).current_term as int,
                        payload: payload@,
                    },
                ]
                &&& final(self).commit_index == if old(self).peers@.len() == 0 {
                    idx
                } else {
                    old(self).commit_index
                }
            },
    {
        if self.role != Role::Leader {
            return Err(RaftError::NotLeader);
        }
        let idx = self.log.last_index() + 1;
        let entry = LogEntry { index: idx, term: self.current_term, payload };
        let mut batch: Vec<LogEntry> = Vec::new();
        batch.push(entry);
        proof {
            let merged = self.log@ + models_of(batch@);
            assert(models_of(batch@)[0] == batch@[0]@);
            assert(entries_wf(merged)) by {
                assert forall|a: int| 0 <= a < merged.len() implies (#[trigger] merged[a]).index
                    == a + 1 by {
                    if a < self.log@.len() {
                        assert(merged[a] == self.log@[a]);
                    } else {
                        assert(merged[a] == models_of(batch@)[0]);
                    }
                }
                assert forall|a: int, b: int| 0 <= a <= b < merged.len() implies (
                #[trigger] merged[a]).term <= (#[trigger] merged[b]).term by {
                    if b < self.log@.len() {
                    } else if a < self.log@.len() {
                        assert(merged[a] == self.log@[a]);
                        assert(self.log@[a].term <= last_term_of(self.log@));
                    }
                }
            }
        }
        self.log.append(batch);
        if self.peers.len() == 0 {
            self.commit_index = idx;
        }
        proof {
            assert(final(self).log@ =~= old(self).log@ + seq![
                crate::log::EntryModel {
                    index: idx as int,
                    term: old(self).current_term as int,
                    payload: payload@,
                },
            ]);
        }
        Ok(idx)
    }

    /// Hands out the committed entries not yet applied, in strict index
    /// order, and advances the applied cursor to the commit index. With
    /// no new commits since the last call the result is empty.
    pub fn ready_for_application(&mut self) -> (r: Vec<LogEntry>)
        requires
            old(self).wf(),
        ensures
            final(self).wf(),
            *final(self) == (Node { last_applied: old(self).commit_index, ..*old(self) }),
            models_of(r@) == final(self).log@.subrange(
                old(self).last_applied as int,
                old(self).commit_index as int,
            ),
            r@.len() == old(self).commit_index - old(self).last_applied,
            old(self).last_applied == old(self).commit_index ==> r@.len() == 0,
    {
        let r = collect_range(&self.log, self.last_applied + 1, self.commit_index);
        self.last_applied = self.commit_index;
        r
    }

    /// Feeds one inbound message through the message processor and
    /// returns the responses to route. A sender outside the configured
    /// cluster is refused with `UnknownPeer` and changes nothing. A
    /// strictly higher term in any message other than a pre-vote probe or
    /// a granted pre-vote answer first forces this node to Follower at
    /// that term; a stale request is answered with a rejection carrying
    /// our term, and a stale response is dropped. At matching terms the
    /// per-kind handlers apply. Across every path: the term never
    /// decreases, the commit index never decreases, the committed log
    /// prefix is never rewritten, a vote bound in the current term stays
    /// bound, and leadership is only ever reached by a Candidate within
    /// its own term.
    pub fn step(&mut self, msg: Message) -> (r: Result<Vec<OutboundMessage>, RaftError>)
        requires
            old(self).wf(),
        ensures
            final(self).wf(),
            Self::same_config(*old(self), *final(self)),
            final(self).current_term >= old(self).current_term,
            final(self).commit_index >= old(self).commit_index,
            final(self).last_applied == old(self).last_applied,
            final(self).log@.subrange(0, old(self).commit_index as int) == old(self).log@.subrange(
                0,
                old(self).commit_index as int,
            ),
            final(self).current_term == old(self).current_term && old(self).voted_for is Some
                ==> final(self).voted_for == old(self).voted_for,
            final(self).role == Role::Leader && old(self).role != Role::Leader ==> old(self).role
                == Role::Candidate && final(self).current_term == old(self).current_term,
            (msg.from == old(self).id || !old(self).is_peer(msg.from)) <==> r == Err::<
                Vec<OutboundMessage>,
                RaftError,
            >(RaftError::UnknownPeer),
            r == Err::<Vec<OutboundMessage>, RaftError>(RaftError::UnknownPeer) ==> *final(self)
                == *old(self),
            r is Err ==> r == Err::<Vec<OutboundMessage>, RaftError>(RaftError::UnknownPeer) || r
                == Err::<Vec<OutboundMessage>, RaftError>(RaftError::TruncationViolation),
            msg.from != old(self).id && old(self).is_peer(msg.from) ==> {
                &&& (msg.kind matches MessageKind::PreVote { last_log_index, last_log_term } ==> {
                    &&& *final(self) == *old(self)
                    &&& (r matches Ok(out) && out@.len() == 1 && out@[0].to == msg.from
                        && out@[0].message.from == old(self).id)
                    &&& (r matches Ok(out) ==> (out@[0].message.kind
                        matches MessageKind::PreVoteResponse { granted } && granted == old(self).prevote_grant(msg.term, last_log_index, last_log_term) && out@[0].message.term
                        == if granted {
                        msg.term
                    } else {
                        old(self).current_term
                    }))
                })
                &&& (msg.kind matches MessageKind::RequestVote { last_log_index, last_log_term }
                    ==> {
                    &&& final(self).current_term == if msg.term > old(self).current_term {
                        msg.term
                    } else {
                        old(self).current_term
                    }
                    &&& (r matches Ok(out) && out@.len() == 1 && out@[0].to == msg.from
                        && out@[0].message.from == old(self).id && out@[0].message.term == final(self).current_term)
                    &&& (r matches Ok(out) ==> (out@[0].message.kind
                        matches MessageKind::RequestVoteResponse { granted } && granted == old(self).grants_vote_to(msg.from, msg.term, last_log_index, last_log_term) && final(self).voted_for == if granted {
                        Some(msg.from)
                    } else if msg.term > old(self).current_term {
                        None
                    } else {
                        old(self).voted_for
                    }))
                })
                &&& (msg.kind matches MessageKind::Heartbeat { leader_commit } ==> {
                    &&& final(self).current_term == if msg.term > old(self).current_term {
                        msg.term
                    } else {
                        old(self).current_term
                    }
                    &&& (msg.term < old(self).current_term ==> *final(self) == *old(self) && (
                    r matches Ok(out) && out@.len() == 1 && out@[0].to == msg.from
                        && out@[0].message.term == old(self).current_term && (
                    out@[0].message.kind matches MessageKind::AppendEntriesResponse {
                        success,
                        ..
                    } && !success)))
                    &&& (msg.term >= old(self).current_term ==> (r matches Ok(out) && out@.len()
                        == 0))
                    &&& (msg.term == old(self).current_term && old(self).role == Role::Leader
                        ==> *final(self) == *old(self))
                    &&& (msg.term >= old(self).current_term && !(msg.term == old(self).current_term && old(self).role == Role::Leader) ==> {
                        &&& final(self).role == Role::Follower
                        &&& final(self).election_elapsed == 0
                        &&& final(self).log@ == old(self).log@
                        &&& final(self).commit_index as int == if old(self).commit_index as int
                            >= vstd::math::min(
                            leader_commit as int,
                            old(self).log@.len() as int,
                        ) {
                            old(self).commit_index as int
                        } else {
                            vstd::math::min(leader_commit as int, old(self).log@.len() as int)
                        }
                    })
                })
                &&& (msg.kind matches MessageKind::AppendEntries {
                    prev_log_index,
                    prev_log_term,
                    entries,
                    leader_commit,
                } ==> {
                    &&& final(self).current_term == if msg.term > old(self).current_term {
                        msg.term
                    } else {
                        old(self).current_term
                    }
                    &&& (msg.term < old(self).current_term ==> *final(self) == *old(self) && (
                    r matches Ok(out) && out@.len() == 1 && out@[0].to == msg.from
                        && out@[0].message.term == old(self).current_term && (
                    out@[0].message.kind matches MessageKind::AppendEntriesResponse {
                        success,
                        ..
                    } && !success)))
                    &&& (msg.term >= old(self).current_term ==> {
                        let aligned = if msg.term > old(self).current_term {
                            (Node { current_term: msg.term, role: Role::Follower, ..*old(self) })
                        } else {
                            *old(self)
                        };
                        &&& (r is Err <==> (aligned.role != Role::Leader
                            && aligned.batch_acceptable(
                            prev_log_index,
                            prev_log_term,
                            models_of(entries@),
                        ) && aligned.anchor_ok(prev_log_index, prev_log_term)
                            && batch_conflicts_with_commit(
                            old(self).log@,
                            prev_log_index as int,
                            models_of(entries@),
                            old(self).commit_index as int,
                        )))
                        &&& (r matches Ok(out) ==> {
                            &&& out@.len() == 1
                            &&& out@[0].to == msg.from
                            &&& out@[0].message.from == old(self).id
                            &&& out@[0].message.term == aligned.current_term
                            &&& (out@[0].message.kind
                                matches MessageKind::AppendEntriesResponse { .. })
                            &&& (out@[0].message.kind
                                matches MessageKind::AppendEntriesResponse {
                                success,
                                match_hint,
                            } ==> {
                                &&& success == (aligned.role != Role::Leader
                                    && aligned.batch_acceptable(
                                    prev_log_index,
                                    prev_log_term,
                                    models_of(entries@),
                                ) && aligned.anchor_ok(prev_log_index, prev_log_term))
                                &&& (success ==> {
                                    &&& match_hint as int == prev_log_index + entries@.len()
                                    &&& final(self).log@ == graft(
                                        old(self).log@,
                                        prev_log_index as int,
                                        models_of(entries@),
                                    )
                                    &&& final(self).commit_index as int == if old(self).commit_index as int >= vstd::math::min(
                                        leader_commit as int,
                                        final(self).log@.len() as int,
                                    ) {
                                        old(self).commit_index as int
                                    } else {
                                        vstd::math::min(
                                            leader_commit as int,
                                            final(self).log@.len() as int,
                                        )
                                    }
                                })
                                &&& (!success ==> {
                                    &&& final(self).log@ == old(self).log@
                                    &&& final(self).commit_index == old(self).commit_index
                                    &&& match_hint as int == if aligned.role != Role::Leader
                                        && aligned.batch_acceptable(
                                        prev_log_index,
                                        prev_log_term,
                                        models_of(entries@),
                                    ) && prev_log_index as int <= old(self).log@.len() {
                                        prev_log_index - 1
                                    } else {
                                        old(self).log@.len() as int
                                    }
                                })
                            })
                        })
                    })
                })
                &&& (msg.kind matches MessageKind::RequestVoteResponse { granted } ==> {
                    &&& (r matches Ok(out) && (out@.len() == 0 || (final(self).role
                        == Role::Leader && old(self).role != Role::Leader && out@.len() == old(self).peers@.len())))
                    &&& (msg.term > old(self).current_term ==> final(self).role == Role::Follower
                        && final(self).current_term == msg.term)
                    &&& (msg.term < old(self).current_term ==> *final(self) == *old(self))
                    &&& (msg.term == old(self).current_term ==> {
                        &&& final(self).current_term == old(self).current_term
                        &&& (old(self).role != Role::Candidate ==> *final(self) == *old(self))
                        &&& (old(self).role == Role::Candidate ==> final(self).votes_granted@
                            == if granted && !seq_contains(old(self).votes_granted@, msg.from) {
                            old(self).votes_granted@.push(msg.from)
                        } else {
                            old(self).votes_granted@
                        })
                        &&& (old(self).role == Role::Candidate && granted && 2 * final(self).votes_granted@.len() > old(self).cluster_size() ==> final(self).role
                            == Role::Leader)
                    })
                })
                &&& (msg.kind matches MessageKind::AppendEntriesResponse {
                    success,
                    match_hint,
                } ==> {
                    &&& (msg.term > old(self).current_term ==> final(self).role == Role::Follower
                        && final(self).current_term == msg.term && (r matches Ok(out)
                        && out@.len() == 0))
                    &&& (msg.term < old(self).current_term ==> *final(self) == *old(self) && (
                    r matches Ok(out) && out@.len() == 0))
                    &&& (msg.term == old(self).current_term ==> {
                        &&& final(self).current_term == old(self).current_term
                        &&& (old(self).role != Role::Leader ==> *final(self) == *old(self) && (
                        r matches Ok(out) && out@.len() == 0))
                        &&& (old(self).role == Role::Leader ==> {
                            &&& final(self).log@ == old(self).log@
                            &&& (final(self).commit_index != old(self).commit_index ==> final(self).log@[final(self).commit_index as int - 1].term == final(self).current_term as int && final(self).replicated_on_majority(
                                final(self).commit_index,
                            ))
                            &&& (success ==> (r matches Ok(out) && out@.len() == 0))
                            &&& (success ==> forall|j: int|
                                0 <= j < old(self).peers@.len() && old(self).peers@[j]
                                    == msg.from ==> (#[trigger] final(self).match_index@[j]) as int == vstd::math::max(
                                    old(self).match_index@[j] as int,
                                    vstd::math::min(
                                        match_hint as int,
                                        old(self).log@.len() as int,
                                    ),
                                ))
                            &&& (success ==> forall|m: int|
                                final(self).commit_index < m <= final(self).log@.len() ==> !((
                                #[trigger] final(self).log@[m - 1]).term == final(self).current_term as int && 2 * (1 + count_ge(
                                    final(self).match_index@,
                                    m as u64,
                                )) > final(self).cluster_size()))
                            &&& (!success ==> (r matches Ok(out) && out@.len() == 1 && out@[0].to
                                == msg.from && (out@[0].message.kind
                                matches MessageKind::AppendEntries { .. })))
                        })
                    })
                })
                &&& (msg.kind matches MessageKind::PreVoteResponse { granted } ==> {
                    &&& (granted ==> {
                        &&& (!(old(self).current_term < u64::MAX && msg.term == old(self).current_term + 1) || old(self).role != Role::PreCandidate ==> *final(self) == *old(self) && (r matches Ok(out) && out@.len() == 0))
                        &&& (old(self).current_term < u64::MAX && msg.term == old(self).current_term + 1 && old(self).role == Role::PreCandidate ==> {
                            &&& (2 * (if seq_contains(old(self).votes_granted@, msg.from) {
                                old(self).votes_granted@.len() as int
                            } else {
                                old(self).votes_granted@.len() + 1int
                            }) > old(self).cluster_size() ==> final(self).current_term == old(self).current_term + 1 && final(self).role == Role::Candidate && (
                            r matches Ok(out) && out@.len() == old(self).peers@.len()))
                            &&& (final(self).role == Role::PreCandidate ==> final(self).votes_granted@ == (if !seq_contains(
                                old(self).votes_granted@,
                                msg.from,
                            ) {
                                old(self).votes_granted@.push(msg.from)
                            } else {
                                old(self).votes_granted@
                            }) && (r matches Ok(out) && out@.len() == 0))
                        })
                    })
                    &&& (!granted ==> {
                        &&& (msg.term > old(self).current_term ==> final(self).role
                            == Role::Follower && final(self).current_term == msg.term)
                        &&& (msg.term <= old(self).current_term ==> *final(self) == *old(self))
                        &&& (r matches Ok(out) && out@.len() == 0)
                    })
                })
            },
    {
        if self.id == msg.from || !contains_id(&self.peers, msg.from) {
            return Err(RaftError::UnknownPeer);
        }
        let Message { from, term, kind } = msg;
        match kind {
            MessageKind::PreVote { last_log_index, last_log_term } => {
                Ok(self.handle_pre_vote(from, term, last_log_index, last_log_term))
            },
            MessageKind::PreVoteResponse { granted } => {
                if granted {
                    if self.current_term < u64::MAX && term == self.current_term + 1 {
                        Ok(self.handle_pre_vote_response(from, true))
                    } else {
                        Ok(Vec::new())
                    }
                } else {
                    if term > self.current_term {
                        self.become_follower(term);
                    }
                    Ok(Vec::new())
                }
            },
            MessageKind::RequestVote { last_log_index, last_log_term } => {
                if term > self.current_term {
                    self.become_follower(term);
                }
                if term < self.current_term {
                    let mut out: Vec<OutboundMessage> = Vec::new();
                    out.push(OutboundMessage {
                        to: from,
                        message: Message {
                            from: self.id,
                            term: self.current_term,
                            kind: MessageKind::RequestVoteResponse { granted: false },
                        },
                    });
                    Ok(out)
                } else {
                    Ok(self.handle_request_vote(from, last_log_index, last_log_term))
                }
            },
            MessageKind::RequestVoteResponse { granted } => {
                if term > self.current_term {
                    self.become_follower(term);
                    Ok(Vec::new())
                } else if term < self.current_term {
                    Ok(Vec::new())
                } else {
                    Ok(self.handle_request_vote_response(from, granted))
                }
            },
            MessageKind::AppendEntriesResponse { success, match_hint } => {
                if term > self.current_term {
                    self.become_follower(term);
                    Ok(Vec::new())
                } else if term < self.current_term {
                    Ok(Vec::new())
                } else {
                    Ok(self.handle_append_entries_response(from, success, match_hint))
                }
            },
            MessageKind::AppendEntries { prev_log_index, prev_log_term, entries, leader_commit } => {
                if term > self.current_term {
                    self.become_follower(term);
                }
                if term < self.current_term {
                    let last = self.log.last_index();
                    Ok(self.reply_append(from, false, last))
                } else {
                    self.handle_append_entries(
                        from,
                        prev_log_index,
                        prev_log_term,
                        entries,
                        leader_commit,
                    )
                }
            },
            MessageKind::Heartbeat { leader_commit } => {
                if term > self.current_term {
                    self.become_follower(term);
                }
                if term < self.current_term {
                    let last = self.log.last_index();
                    Ok(self.reply_append(from, false, last))
                } else {
                    Ok(self.handle_heartbeat(from, leader_commit))
                }
            },
        }
    }

    /// Builds the single `AppendEntriesResponse` to `to`.
    fn reply_append(&self, to: u64, success: bool, match_hint: u64) -> (r: Vec<OutboundMessage>)
        ensures
            r@.len() == 1,
            r@[0].to == to,
            r@[0].message.from == self.id,
            r@[0].message.term == self.current_term,
            r@[0].message.kind matches MessageKind::AppendEntriesResponse {
                success: s,
                match_hint: m,
            } && s == success && m == match_hint,
            r@[0].message.kind matches MessageKind::AppendEntriesResponse { .. },
    {
        let mut out: Vec<OutboundMessage> = Vec::new();
        out.push(OutboundMessage {
            to,
            message: Message {
                from: self.id,
                term: self.current_term,
                kind: MessageKind::AppendEntriesResponse { success, match_hint },
            },
        });
        out
    }
}

/// Shape of a replication batch relative to its (`prev_index`,
/// `prev_term`) anchor: contiguous indices from `prev_index + 1`,
/// pairwise non-decreasing terms not below `prev_term`, and a resulting
/// last index that still fits.
pub open spec fn extension_ok(prev_index: int, prev_term: int, es: Seq<crate::log::EntryModel>) -> bool {
    &&& forall|i: int| 0 <= i < es.len() ==> (#[trigger] es[i]).index == prev_index + 1 + i
    &&& forall|i: int, j: int| 0 <= i <= j < es.len() ==> (#[trigger] es[i]).term <= (#[trigger] es[j]).term
    &&& (es.len() > 0 ==> es[0].term >= prev_term)
    &&& prev_index + es.len() < u64::MAX
}

/// The result of grafting a replication batch `es` anchored after
/// position `prev` onto `log`: entries already present with the same term
/// are kept, and from the first divergence on the local suffix is
/// replaced by the batch. A batch that is entirely present leaves the log
/// unchanged.
pub open spec fn graft(log: Seq<crate::log::EntryModel>, prev: int, es: Seq<crate::log::EntryModel>) -> Seq<crate::log::EntryModel>
    decreases es.len(),
{
    if es.len() == 0 {
        log
    } else if prev + 1 <= log.len() && log[prev].term == es[0].term {
        graft(log, prev + 1, es.subrange(1, es.len() as int))
    } else {
        log.subrange(0, prev) + es
    }
}

/// Finds how many leading batch entries are already present in the log
/// with the same term, scanning from the anchor position.
pub fn scan_match(log: &LogStore, prev_log_index: u64, entries: &Vec<LogEntry>) -> (k: usize)
    requires
        log.wf(),
        prev_log_index as int + entries@.len() < u64::MAX,
        prev_log_index as int <= log@.len(),
    ensures
        k <= entries@.len(),
        prev_log_index + k <= log@.len(),
        forall|j: int| 0 <= j < k ==> log@[prev_log_index + j].term == (
        #[trigger] models_of(entries@)[j]).term,
        k == entries@.len() || prev_log_index + 1 + k > log@.len() || log@[prev_log_index as int
            + k].term != models_of(entries@)[k as int].term,
{
    let n = entries.len();
    let last = log.last_index();
    let mut k: usize = 0;
    while k < n && prev_log_index + 1 + (k as u64) <= last && log.term_at(
        prev_log_index + 1 + (k as u64),
    ) == entries[k].term
        invariant
            log.wf(),
            n == entries@.len(),
            last as int == log@.len(),
            prev_log_index as int + n < u64::MAX,
            prev_log_index as int <= log@.len(),
            k <= n,
            prev_log_index + k <= log@.len(),
            forall|j: int| 0 <= j < k ==> log@[prev_log_index + j].term == (
            #[trigger] models_of(entries@)[j]).term,
        decreases n - k,
    {
        proof {
            assert(models_of(entries@)[k as int] == entries@[k as int]@);
        }
        k = k + 1;
    }
    k
}

/// Grafting after skipping `k` entries that are already present with the
/// same term gives the same log as grafting the whole batch.
pub proof fn lemma_graft_skip(
    log: Seq<crate::log::EntryModel>,
    prev: int,
    es: Seq<crate::log::EntryModel>,
    k: int,
)
    requires
        0 <= k <= es.len(),
        0 <= prev,
        prev + k <= log.len(),
        forall|j: int| 0 <= j < k ==> log[prev + j].term == (#[trigger] es[j]).term,
    ensures
        graft(log, prev, es) == graft(log, prev + k, es.subrange(k, es.len() as int)),
    decreases k,
{
    if k == 0 {
        assert(es.subrange(0, es.len() as int) =~= es);
    } else {
        let tail = es.subrange(1, es.len() as int);
        assert(es[0].term == log[prev].term);
        assert(graft(log, prev, es) == graft(log, prev + 1, tail));
        assert forall|j: int| 0 <= j < k - 1 implies log[prev + 1 + j].term == (
        #[trigger] tail[j]).term by {
            assert(tail[j] == es[j + 1]);
            assert(log[prev + (j + 1)].term == es[j + 1].term);
        }
        lemma_graft_skip(log, prev + 1, tail, k - 1);
        assert(tail.subrange(k - 1, tail.len() as int) =~= es.subrange(k, es.len() as int));
    }
}

/// Whether grafting the batch anchored after position `prev` would have
/// to overwrite an entry at or below `commit` (1-based): entries already
/// present with the same term are walked past, and at the first
/// divergence the overwritten position is compared against `commit`.
pub open spec fn batch_conflicts_with_commit(
    log: Seq<crate::log::EntryModel>,
    prev: int,
    es: Seq<crate::log::EntryModel>,
    commit: int,
) -> bool
    decreases es.len(),
{
    if es.len() == 0 {
        false
    } else if prev + 1 <= log.len() && log[prev].term == es[0].term {
        batch_conflicts_with_commit(log, prev + 1, es.subrange(1, es.len() as int), commit)
    } else {
        prev + 1 <= log.len() && prev + 1 <= commit
    }
}

/// Walking past `k` entries already present with the same term does not
/// change whether the graft would touch the committed prefix.
pub proof fn lemma_conflict_skip(
    log: Seq<crate::log::EntryModel>,
    prev: int,
    es: Seq<crate::log::EntryModel>,
    commit: int,
    k: int,
)
    requires
        0 <= k <= es.len(),
        0 <= prev,
        prev + k <= log.len(),
        forall|j: int| 0 <= j < k ==> log[prev + j].term == (#[trigger] es[j]).term,
    ensures
        batch_conflicts_with_commit(log, prev, es, commit) == batch_conflicts_with_commit(
            log,
            prev + k,
            es.subrange(k, es.len() as int),
            commit,
        ),
    decreases k,
{
    if k == 0 {
        assert(es.subrange(0, es.len() as int) =~= es);
    } else {
        let tail = es.subrange(1, es.len() as int);
        assert(es[0].term == log[prev].term);
        assert forall|j: int| 0 <= j < k - 1 implies log[prev + 1 + j].term == (
        #[trigger] tail[j]).term by {
            assert(tail[j] == es[j + 1]);
            assert(log[prev + (j + 1)].term == es[j + 1].term);
        }
        lemma_conflict_skip(log, prev + 1, tail, commit, k - 1);
        assert(tail.subrange(k - 1, tail.len() as int) =~= es.subrange(k, es.len() as int));
    }
}

/// Checks the shape of a replication batch against its anchor.
pub fn batch_shape_ok(prev_index: u64, prev_term: u64, entries: &Vec<LogEntry>) -> (r: bool)
    ensures
        r == extension_ok(prev_index as int, prev_term as int, models_of(entries@)),
{
    let n = entries.len();
    if prev_index as u128 + n as u128 >= u64::MAX as u128 {
        proof {
            assert(models_of(entries@).len() == entries@.len());
        }
        return false;
    }
    if n > 0 && entries[0].term < prev_term {
        proof {
            assert(models_of(entries@)[0].term < prev_term);
        }
        return false;
    }
    let mut i: usize = 0;
    while i < n
        invariant
            n == entries@.len(),
            i <= n,
            prev_index + n < u64::MAX,
            forall|k: int| 0 <= k < i ==> (#[trigger] models_of(entries@)[k]).index
                == prev_index + 1 + k,
            forall|k: int| 0 <= k < i && k + 1 < n ==> (#[trigger] models_of(entries@)[k]).term
                <= models_of(entries@)[k + 1].term,
        decreases n - i,
    {
        if entries[i].index != prev_index + 1 + (i as u64) {
            proof {
                assert(models_of(entries@)[i as int].index != prev_index + 1 + i);
            }
            return false;
        }
        if i + 1 < n && entries[i].term > entries[i + 1].term {
            proof {
                assert(models_of(entries@)[i as int].term > models_of(entries@)[i + 1].term);
            }
            return false;
        }
        i = i + 1;
    }
    proof {
        assert forall|k: int, l: int|
            0 <= k <= l < models_of(entries@).len() implies (#[trigger] models_of(entries@)[k]).term
            <= (#[trigger] models_of(entries@)[l]).term by {
            lemma_terms_sorted(models_of(entries@), k, l);
        }
    }
    true
}

/// Counts the entries of `v` that are at least `n`.
pub fn count_at_least(v: &Vec<u64>, n: u64) -> (c: usize)
    ensures
        c as int == count_ge(v@, n),
        c <= v@.len(),
{
    let mut c: usize = 0;
    let mut i: usize = 0;
    while i < v.len()
        invariant
            i <= v@.len(),
            c <= i,
            c as int == count_ge(v@.subrange(0, i as int), n),
        decreases v@.len() - i,
    {
        proof {
            assert(v@.subrange(0, i + 1).drop_last() =~= v@.subrange(0, i as int));
            assert(v@.subrange(0, i + 1).last() == v@[i as int]);
        }
        if v[i] >= n {
            c = c + 1;
        }
        i = i + 1;
    }
    proof {
        assert(v@.subrange(0, v@.len() as int) =~= v@);
    }
    c
}

/// Position of `x` in `v`, which must hold it.
pub fn index_of(v: &Vec<u64>, x: u64) -> (r: usize)
    requires
        seq_contains(v@, x),
    ensures
        r < v@.len(),
        v@[r as int] == x,
{
    let mut i: usize = 0;
    while i < v.len()
        invariant
            i <= v@.len(),
            seq_contains(v@, x),
            forall|k: int| 0 <= k < i ==> v@[k] != x,
        decreases v@.len() - i,
    {
        if v[i] == x {
            return i;
        }
        i = i + 1;
    }
    proof {
        assert(false);
    }
    0
}

/// Copies the stored entries from index `from_idx` through the end of the
/// log, oldest first.
pub fn collect_entries(log: &LogStore, from_idx: u64) -> (r: Vec<LogEntry>)
    requires
        log.wf(),
        1 <= from_idx,
        from_idx as int <= log@.len() + 1,
    ensures
        models_of(r@) =~= log@.subrange(from_idx as int - 1, log@.len() as int),
{
    let mut r: Vec<LogEntry> = Vec::new();
    let mut idx = from_idx;
    let last = log.last_index();
    while idx <= last
        invariant
            log.wf(),
            last as int == log@.len(),
            1 <= from_idx <= idx,
            idx as int <= log@.len() + 1,
            r@.len() == idx - from_idx,
            forall|t: int| 0 <= t < r@.len() ==> (#[trigger] models_of(r@)[t]) == log@[from_idx - 1
                + t],
        decreases last + 1 - idx,
    {
        let e = match log.get(idx) {
            Ok(e) => e,
            Err(_) => {
                proof {
                    assert(false);
                }
                return r;
            },
        };
        let ghost r0 = r@;
        r.push(e);
        proof {
            assert forall|t: int| 0 <= t < r@.len() implies (#[trigger] models_of(r@)[t])
                == log@[from_idx - 1 + t] by {
                if t < r0.len() {
                    assert(r@[t] == r0[t]);
                    assert(models_of(r0)[t] == log@[from_idx - 1 + t]);
                } else {
                    assert(r@[t] == e);
                }
            }
        }
        idx = idx + 1;
    }
    r
}

/// Copies the stored entries with indices in `[from_idx, to_idx]`,
/// oldest first.
pub fn collect_range(log: &LogStore, from_idx: u64, to_idx: u64) -> (r: Vec<LogEntry>)
    requires
        log.wf(),
        1 <= from_idx,
        from_idx <= to_idx + 1,
        to_idx as int <= log@.len(),
    ensures
        models_of(r@) =~= log@.subrange(from_idx as int - 1, to_idx as int),
        r@.len() == to_idx + 1 - from_idx,
{
    let mut r: Vec<LogEntry> = Vec::new();
    let mut idx = from_idx;
    while idx <= to_idx
        invariant
            log.wf(),
            to_idx as int <= log@.len(),
            1 <= from_idx <= idx,
            idx <= to_idx + 1,
            r@.len() == idx - from_idx,
            forall|t: int| 0 <= t < r@.len() ==> (#[trigger] models_of(r@)[t]) == log@[from_idx - 1
                + t],
        decreases to_idx + 1 - idx,
    {
        let e = match log.get(idx) {
            Ok(e) => e,
            Err(_) => {
                proof {
                    assert(false);
                }
                return r;
            },
        };
        let ghost r0 = r@;
        r.push(e);
        proof {
            assert forall|t: int| 0 <= t < r@.len() implies (#[trigger] models_of(r@)[t])
                == log@[from_idx - 1 + t] by {
                if t < r0.len() {
                    assert(r@[t] == r0[t]);
                    assert(models_of(r0)[t] == log@[from_idx - 1 + t]);
                } else {
                    assert(r@[t] == e);
                }
            }
        }
        idx = idx + 1;
    }
    r
}

/// Draws a fresh randomized election timeout from `[min, max)` and the
/// advanced generator state.
pub fn draw_timeout(rng: u64, min: u64, max: u64) -> (r: (u64, u64))
    requires
        1 <= min < max,
    ensures
        min <= r.1 < max,
        r.0 == spec_xorshift(rng),
        r.1 as int == min + (spec_xorshift(rng) as int) % (max - min) as int,
{
    let nrng = xorshift(rng);
    (nrng, min + nrng % (max - min))
}

/// Builds a vector of `len` copies of `val`.
pub fn filled(len: usize, val: u64) -> (r: Vec<u64>)
    ensures
        r@.len() == len,
        forall|i: int| 0 <= i < len ==> r@[i] == val,
{
    let mut r: Vec<u64> = Vec::new();
    let mut i: usize = 0;
    while i < len
        invariant
            i <= len,
            r@.len() == i,
            forall|k: int| 0 <= k < i ==> r@[k] == val,
        decreases len - i,
    {
        r.push(val);
        i = i + 1;
    }
    r
}

/// Checks that a vector of entries forms a well-formed log on its own:
/// contiguous indices from 1 and non-decreasing terms.
pub fn log_shape_ok(entries: &Vec<LogEntry>) -> (r: bool)
    ensures
        r == entries_wf(models_of(entries@)),
{
    if entries.len() as u64 == u64::MAX {
        proof {
            assert(models_of(entries@).len() == entries@.len());
        }
        return false;
    }
    let mut i: usize = 0;
    while i < entries.len()
        invariant
            i <= entries@.len(),
            entries@.len() < u64::MAX,
            forall|k: int| 0 <= k < i ==> (#[trigger] models_of(entries@)[k]).index == k + 1,
            forall|k: int| 0 <= k < i && k + 1 < entries@.len() ==> (
            #[trigger] models_of(entries@)[k]).term <= models_of(entries@)[k + 1].term,
        decreases entries@.len() - i,
    {
        if entries[i].index != (i as u64) + 1 {
            proof {
                assert(models_of(entries@)[i as int].index != i + 1);
            }
            return false;
        }
        if i + 1 < entries.len() && entries[i].term > entries[i + 1].term {
            proof {
                assert(models_of(entries@)[i as int].term > models_of(entries@)[i + 1].term);
            }
            return false;
        }
        i = i + 1;
    }
    proof {
        assert forall|k: int, l: int|
            0 <= k <= l < models_of(entries@).len() implies (#[trigger] models_of(entries@)[k]).term
            <= (#[trigger] models_of(entries@)[l]).term by {
            lemma_terms_sorted(models_of(entries@), k, l);
        }
    }
    true
}

/// Non-decreasing adjacent terms extend to any two positions in order.
proof fn lemma_terms_sorted(s: Seq<crate::log::EntryModel>, k: int, l: int)
    requires
        0 <= k <= l < s.len(),
        forall|i: int| 0 <= i < s.len() - 1 ==> (#[trigger] s[i]).term <= s[i + 1].term,
    ensures
        s[k].term <= s[l].term,
    decreases l - k,
{
    if k < l {
        lemma_terms_sorted(s, k + 1, l);
    }
}

} // verus!
