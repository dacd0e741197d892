//! Safety arguments of the consensus core, stated over the mathematical
//! models that the node's contracts use: quorum intersection, election
//! safety within a term, the up-to-date fragment of leader completeness,
//! and the append/get round trip of the log store.

use vstd::prelude::*;

use vstd::assert_by_contradiction;

use crate::log::EntryModel;
use crate::node::{Node, up_to_date};

verus! {

/// Two finite disjoint sets' union carries the sum of their sizes.
proof fn lemma_disjoint_union_len(a: Set<u64>, b: Set<u64>)
    requires
        a.finite(),
        b.finite(),
        a.intersect(b) =~= Set::<u64>::empty(),
    ensures
        a.union(b).finite(),
        a.union(b).len() == a.len() + b.len(),
    decreases a.len(),
{
    if a.is_empty() {
        assert(a.union(b) =~= b);
    } else {
        let x = a.choose();
        assert(a.contains(x));
        assert(!a.intersect(b).contains(x));
        assert(!b.contains(x));
        assert(a.remove(x).intersect(b) =~= Set::<u64>::empty());
        lemma_disjoint_union_len(a.remove(x), b);
        assert(a.remove(x).union(b) =~= a.union(b).remove(x));
        assert(a.union(b).remove(x).insert(x) =~= a.union(b));
    }
}

/// Quorum intersection: two majorities of one finite cluster share a
/// member.
pub proof fn lemma_quorum_overlap(cluster: Set<u64>, qa: Set<u64>, qb: Set<u64>)
    requires
        cluster.finite(),
        qa.subset_of(cluster),
        qb.subset_of(cluster),
        2 * qa.len() > cluster.len(),
        2 * qb.len() > cluster.len(),
    ensures
        exists|v: u64| qa.contains(v) && qb.contains(v),
{
    vstd::set_lib::lemma_len_subset(qa, cluster);
    vstd::set_lib::lemma_len_subset(qb, cluster);
    assert_by_contradiction!(exists|v: u64| qa.contains(v) && qb.contains(v), {
        assert(qa.intersect(qb) =~= Set::<u64>::empty());
        lemma_disjoint_union_len(qa, qb);
        assert(qa.union(qb).subset_of(cluster));
        vstd::set_lib::lemma_len_subset(qa.union(qb), cluster);
    });
}

/// The vote round a node counts before taking leadership is a genuine
/// quorum: the granted ids are distinct and drawn from the cluster (the
/// node and its peers), so when the majority test on their number
/// passes, they form a set of more than half the cluster. This bridges
/// the counting that `handle_request_vote_response` performs to the
/// set-level quorums of the election-safety argument.
pub proof fn lemma_votes_form_quorum(n: Node)
    requires
        n.wf(),
        2 * n.votes_granted@.len() > n.cluster_size(),
    ensures
        ({
            let cluster = n.peers@.to_set().insert(n.id);
            let q = n.votes_granted@.to_set();
            &&& cluster.finite()
            &&& q.subset_of(cluster)
            &&& cluster.len() == n.cluster_size()
            &&& 2 * q.len() > cluster.len()
        }),
{
    broadcast use vstd::seq_lib::seq_to_set_is_finite;

    let cluster = n.peers@.to_set().insert(n.id);
    let q = n.votes_granted@.to_set();
    assert(n.votes_granted@.no_duplicates()) by {
        assert forall|i: int, j: int|
            0 <= i < n.votes_granted@.len() && 0 <= j < n.votes_granted@.len() && i
                != j implies n.votes_granted@[i] != n.votes_granted@[j] by {
            if i < j {
            } else {
                assert(n.votes_granted@[j] != n.votes_granted@[i]);
            }
        }
    }
    n.votes_granted@.unique_seq_to_set();
    assert(n.peers@.no_duplicates()) by {
        assert forall|i: int, j: int|
            0 <= i < n.peers@.len() && 0 <= j < n.peers@.len() && i != j implies n.peers@[i]
                != n.peers@[j] by {
            if i < j {
            } else {
                assert(n.peers@[j] != n.peers@[i]);
            }
        }
    }
    n.peers@.unique_seq_to_set();
    assert(!n.peers@.to_set().contains(n.id));
    assert(cluster.len() == n.peers@.len() + 1);
    assert forall|x: u64| q.contains(x) implies cluster.contains(x) by {
        assert(n.votes_granted@.contains(x));
        let i = choose|i: int| 0 <= i < n.votes_granted@.len() && n.votes_granted@[i] == x;
        if n.votes_granted@[i] == n.id {
        } else {
            assert(crate::node::seq_contains(n.peers@, x));
            assert(n.peers@.contains(x));
        }
    }
}

/// Election safety within one term: a node binds at most one vote per
/// term (`votes` maps each voter to the single candidate it granted), so
/// two candidates each holding a majority of binding votes from one
/// cluster in the same term are the same candidate — at most one Leader
/// can arise for any given term.
pub proof fn lemma_election_safety(
    cluster: Set<u64>,
    votes: Map<u64, u64>,
    qa: Set<u64>,
    qb: Set<u64>,
    a: u64,
    b: u64,
)
    requires
        cluster.finite(),
        qa.subset_of(cluster),
        qb.subset_of(cluster),
        2 * qa.len() > cluster.len(),
        2 * qb.len() > cluster.len(),
        forall|v: u64| qa.contains(v) ==> votes.dom().contains(v) && votes[v] == a,
        forall|v: u64| qb.contains(v) ==> votes.dom().contains(v) && votes[v] == b,
    ensures
        a == b,
{
    lemma_quorum_overlap(cluster, qa, qb);
    let v = choose|v: u64| qa.contains(v) && qb.contains(v);
    assert(votes[v] == a && votes[v] == b);
}

/// A log with non-decreasing terms is, at its end, at least as up to
/// date as any prefix position it stores.
proof fn lemma_last_dominates(log: Seq<EntryModel>, i: int)
    requires
        1 <= i <= log.len(),
        forall|x: int, y: int| 0 <= x <= y < log.len() ==> (#[trigger] log[x]).term <= (
        #[trigger] log[y]).term,
    ensures
        up_to_date(log[log.len() - 1].term, log.len() as int, log[i - 1].term, i),
{
    assert(log[i - 1].term <= log[log.len() - 1].term);
}

/// The voting fragment of leader completeness: suppose an entry at index
/// `i` with term `t` is stored by every member of a majority `qc` (each
/// member's log has non-decreasing terms), and a candidate wins a
/// majority `qv` of votes, each granted only because the candidate's
/// (last term, last index) summary is at least as up to date as the
/// voter's. Then the candidate's summary is at least as up to date as
/// (`t`, `i`): the up-to-date voting rule keeps a winning candidate's
/// log summary from lagging any committed entry.
pub proof fn lemma_leader_not_behind_commit(
    cluster: Set<u64>,
    logs: Map<u64, Seq<EntryModel>>,
    qc: Set<u64>,
    qv: Set<u64>,
    i: int,
    t: int,
    cand_last_term: int,
    cand_last_index: int,
)
    requires
        cluster.finite(),
        qc.subset_of(cluster),
        qv.subset_of(cluster),
        2 * qc.len() > cluster.len(),
        2 * qv.len() > cluster.len(),
        forall|v: u64| #[trigger] qc.contains(v) ==> {
            &&& logs.dom().contains(v)
            &&& 1 <= i <= logs[v].len()
            &&& logs[v][i - 1].term == t
            &&& forall|x: int, y: int| 0 <= x <= y < logs[v].len() ==> (#[trigger] logs[v][x]).term
                <= (#[trigger] logs[v][y]).term
        },
        forall|v: u64| #[trigger] qv.contains(v) ==> logs.dom().contains(v) && up_to_date(
            cand_last_term,
            cand_last_index,
            crate::log::last_term_of(logs[v]),
            logs[v].len() as int,
        ),
    ensures
        up_to_date(cand_last_term, cand_last_index, t, i),
{
    lemma_quorum_overlap(cluster, qc, qv);
    let v = choose|v: u64| qc.contains(v) && qv.contains(v);
    lemma_last_dominates(logs[v], i);
}

/// The round trip of the log store: after an append, the positions that
/// the batch occupied hand back exactly the batch entries, in order, and
/// the earlier positions still hand back the old entries. This is the
/// model-level statement behind `LogStore::append` and `LogStore::get`,
/// whose contracts are phrased over the same concatenation.
pub proof fn lemma_append_get_round_trip(pre: Seq<EntryModel>, batch: Seq<EntryModel>, i: int)
    requires
        1 <= i <= pre.len() + batch.len(),
    ensures
        i > pre.len() ==> (pre + batch)[i - 1] == batch[i - pre.len() - 1],
        i <= pre.len() ==> (pre + batch)[i - 1] == pre[i - 1],
{
}

} // verus!
