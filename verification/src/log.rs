//! The log store: an append-only ordered sequence of log entries with
//! term/index bookkeeping.
//!
//! Entry indices form a contiguous sequence starting at 1, and entry terms
//! are non-decreasing along the log. Committed entries are immutable:
//! truncation below the commit index is refused.

use vstd::prelude::*;

use crate::RaftError;

verus! {

/// Mathematical model of a single log entry.
pub ghost struct EntryModel {
    pub index: int,
    pub term: int,
    pub payload: Seq<u8>,
}

/// A log entry: a position, the term at which it was appended, and an
/// opaque payload (which may be empty, e.g. for no-op markers).
pub struct LogEntry {
    pub index: u64,
    pub term: u64,
    pub payload: Vec<u8>,
}

impl View for LogEntry {
    type V = EntryModel;

    open spec fn view(&self) -> EntryModel {
        EntryModel {
            index: self.index as int,
            term: self.term as int,
            payload: self.payload@,
        }
    }
}

/// The model of a sequence of stored entries.
pub open spec fn models_of(s: Seq<LogEntry>) -> Seq<EntryModel> {
    s.map(|i: int, e: LogEntry| e@)
}

/// Well-formedness of a log: indices are contiguous from 1 and terms are
/// non-decreasing.
pub open spec fn entries_wf(s: Seq<EntryModel>) -> bool {
    &&& forall|i: int| 0 <= i < s.len() ==> (#[trigger] s[i]).index == i + 1
    &&& forall|i: int, j: int| 0 <= i <= j < s.len() ==> (#[trigger] s[i]).term <= (#[trigger] s[j]).term
    &&& s.len() < u64::MAX
}

/// The term of the last entry of a log model, or 0 for an empty log.
pub open spec fn last_term_of(s: Seq<EntryModel>) -> int {
    if s.len() == 0 {
        0
    } else {
        s[s.len() - 1].term
    }
}

/// Copies a byte vector.
pub fn clone_bytes(v: &Vec<u8>) -> (r: Vec<u8>)
    ensures
        r@ == v@,
{
    let mut r: Vec<u8> = Vec::new();
    let mut i: usize = 0;
    while i < v.len()
        invariant
            i <= v@.len(),
            r@ == v@.subrange(0, i as int),
        decreases v@.len() - i,
    {
        r.push(v[i]);
        i = i + 1;
        proof {
            assert(r@ =~= v@.subrange(0, i as int));
        }
    }
    proof {
        assert(r@ =~= v@);
    }
    r
}

/// Copies a log entry.
pub fn clone_entry(e: &LogEntry) -> (r: LogEntry)
    ensures
        r@ == e@,
{
    LogEntry { index: e.index, term: e.term, payload: clone_bytes(&e.payload) }
}

/// Append-only ordered storage of log entries.
pub struct LogStore {
    entries: Vec<LogEntry>,
}

impl LogStore {
    /// The model of the stored log, oldest entry first.
    pub closed spec fn view(&self) -> Seq<EntryModel> {
        models_of(self.entries@)
    }

    /// A well-formed store holds a well-formed log.
    pub open spec fn wf(&self) -> bool {
        entries_wf(self@)
    }

    /// Creates an empty log store.
    pub fn new() -> (r: LogStore)
        ensures
            r@ =~= Seq::<EntryModel>::empty(),
            r.wf(),
    {
        LogStore { entries: Vec::new() }
    }

    /// The index of the last stored entry, or 0 for an empty log.
    pub fn last_index(&self) -> (r: u64)
        requires
            self.wf(),
        ensures
            r as int == self@.len(),
    {
        self.entries.len() as u64
    }

    /// The term of the last stored entry, or 0 for an empty log.
    pub fn last_term(&self) -> (r: u64)
        requires
            self.wf(),
        ensures
            r as int == last_term_of(self@),
    {
        if self.entries.len() == 0 {
            0
        } else {
            self.entries[self.entries.len() - 1].term
        }
    }

    /// The term of the entry at `index`, or 0 when `index` is 0 (the empty
    /// prefix) or out of bounds.
    pub fn term_at(&self, index: u64) -> (r: u64)
        requires
            self.wf(),
        ensures
            1 <= index as int <= self@.len() ==> r as int == self@[index as int - 1].term,
            index == 0 || index as int > self@.len() ==> r == 0,
    {
        if index >= 1 && index <= self.entries.len() as u64 {
            self.entries[(index - 1) as usize].term
        } else {
            0
        }
    }

    /// Returns a copy of the entry at `index`, or `NotFound` if no entry
    /// with that index is stored. Succeeds exactly on 1 <= index <= length.
    pub fn get(&self, index: u64) -> (r: Result<LogEntry, RaftError>)
        requires
            self.wf(),
        ensures
            (1 <= index as int <= self@.len()) <==> r is Ok,
            r matches Ok(e) ==> e@ == self@[index as int - 1],
            r is Err ==> r == Err::<LogEntry, RaftError>(RaftError::NotFound),
    {
        if index >= 1 && index <= self.entries.len() as u64 {
            Ok(clone_entry(&self.entries[(index - 1) as usize]))
        } else {
            Err(RaftError::NotFound)
        }
    }

    /// Appends entries to the end of the log and returns the new last
    /// index. The entries must continue the log: contiguous indices and
    /// non-decreasing terms, stated as well-formedness of the extended log.
    pub fn append(&mut self, entries: Vec<LogEntry>) -> (r: u64)
        requires
            old(self).wf(),
            entries_wf(old(self)@ + models_of(entries@)),
        ensures
            final(self)@ == old(self)@ + models_of(entries@),
            final(self).wf(),
            r as int == final(self)@.len(),
    {
        let mut moved = entries;
        let ghost pre = moved@;
        self.entries.append(&mut moved);
        proof {
            assert(self@ =~= old(self)@ + models_of(pre));
        }
        self.entries.len() as u64
    }

    /// Removes the entries at `index` and later. Fails with
    /// `TruncationViolation` exactly when `index <= commit_index`, since
    /// committed entries are immutable; an index beyond the end of the log
    /// leaves the log unchanged.
    pub fn truncate_from(&mut self, index: u64, commit_index: u64) -> (r: Result<(), RaftError>)
        requires
            old(self).wf(),
        ensures
            index <= commit_index ==> r == Err::<(), RaftError>(RaftError::TruncationViolation)
                && final(self)@ == old(self)@,
            index > commit_index ==> r is Ok
                && final(self)@ == if index as int <= old(self)@.len() {
                    old(self)@.subrange(0, index as int - 1)
                } else {
                    old(self)@
                },
            final(self).wf(),
    {
        if index <= commit_index {
            return Err(RaftError::TruncationViolation);
        }
        if index > self.entries.len() as u64 {
            return Ok(());
        }
        self.entries.truncate((index - 1) as usize);
        proof {
            assert(self@ =~= old(self)@.subrange(0, index as int - 1));
            assert forall|i: int| 0 <= i < self@.len() implies (#[trigger] self@[i]).index == i
                + 1 by {
                assert(self@[i] == old(self)@[i]);
            }
            assert forall|i: int, j: int| 0 <= i <= j < self@.len() implies (
            #[trigger] self@[i]).term <= (#[trigger] self@[j]).term by {
                assert(self@[i] == old(self)@[i]);
                assert(self@[j] == old(self)@[j]);
            }
        }
        Ok(())
    }
}

} // verus!
