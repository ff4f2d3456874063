//! The replicated log: entries in index order, and snapshots that compact
//! it.
//!
//! Entries carry consecutive indexes starting at the log's base index (1
//! for a fresh log, one past the snapshot after compaction). A snapshot
//! records the whole state store with the index and term it covers; taking
//! one empties the log and moves its base past the snapshot. Persisting
//! entries and snapshots is the binary's job: it writes what this log holds.
use crate::error::{Error, Result};
use crate::state::{Command, StateStore};
use vstd::prelude::*;

verus! {

/// `chrono::Utc::now().timestamp_micros()`: the current wall-clock time in
/// microseconds since the Unix epoch. The clock decides, so nothing is
/// stated of it.
#[verifier::external_body]
fn utc_now_micros() -> i64 {
    chrono::Utc::now().timestamp_micros()
}

/// A single entry in the replicated log.
#[derive(Debug)]
pub struct RaftLogEntry {
    /// Log index (1-based, consecutive).
    pub index: u64,
    /// Term in which the entry was appended.
    pub term: u64,
    /// Wall-clock time when the entry was appended, in microseconds since
    /// the Unix epoch (UTC).
    pub timestamp: i64,
    /// The state-machine command to apply once the entry is committed.
    pub command: Command,
}

/// A snapshot of the state machine at a log position.
#[derive(Debug)]
pub struct RaftSnapshot {
    /// The full state store at snapshot time.
    pub state: StateStore,
    /// The last log index the snapshot covers.
    pub last_included_index: u64,
    /// The term of that entry.
    pub last_included_term: u64,
}

/// The log: the entries held, and the index of the first one.
#[derive(Debug)]
pub struct RaftLogStore {
    /// Entries held, in index order.
    entries: Vec<RaftLogEntry>,
    /// Index of `entries[0]` (one past the last snapshot).
    base_index: u64,
}

/// Index of the last entry of a log with base `base` holding `len` entries
/// (the index before the base when it holds none).
pub open spec fn last_of(base: u64, len: nat) -> int {
    if len == 0 {
        if base == 0 { 0 } else { base - 1 }
    } else {
        base + len - 1
    }
}

impl RaftLogStore {
    /// The entries held.
    pub closed spec fn entries(&self) -> Seq<RaftLogEntry> {
        self.entries@
    }

    /// The index of the first entry held.
    pub closed spec fn base(&self) -> u64 {
        self.base_index
    }

    #[verifier::type_invariant]
    closed spec fn inv(&self) -> bool {
        self.base_index + self.entries@.len() <= u64::MAX + 1
    }

    /// The log's indexes fit (a no-op at run time).
    pub fn check_fits(&self)
        ensures
            self.base() + self.entries().len() <= u64::MAX + 1,
    {
        proof {
            use_type_invariant(self);
        }
    }

    /// An empty log starting at index 1.
    pub fn new() -> (r: RaftLogStore)
        ensures
            r.entries().len() == 0,
            r.base() == 1,
    {
        RaftLogStore { entries: Vec::new(), base_index: 1 }
    }

    /// A log rebuilt from persisted state: `entries` (in order) starting at
    /// `base_index`.
    ///
    /// # Errors
    ///
    /// Returns [`Error::Runtime`] when the entries' indexes would not fit in
    /// a `u64`.
    pub fn restore(base_index: u64, entries: Vec<RaftLogEntry>) -> (r: Result<RaftLogStore>)
        ensures
            base_index + entries@.len() <= u64::MAX + 1 ==> (r matches Ok(l) && l.base() == base_index && l.entries() == entries@),
            base_index + entries@.len() > u64::MAX + 1 ==> (r matches Err(e) && e.is_runtime("raft log indexes overflow"@)),
    {
        if entries.len() as u128 + base_index as u128 > u64::MAX as u128 + 1 {
            return Err(Error::Runtime("raft log indexes overflow".to_string()));
        }
        Ok(RaftLogStore { entries, base_index })
    }

    /// Append a command in `term`, stamped with the current time, at the
    /// next index. Returns that index.
    ///
    /// # Errors
    ///
    /// Returns [`Error::Runtime`] when the next index would not fit in a
    /// `u64`.
    pub fn append(&mut self, term: u64, command: Command) -> (r: Result<u64>)
        ensures
            old(self).base() + old(self).entries().len() <= u64::MAX ==> {
                &&& r == Ok::<u64, Error>((old(self).base() + old(self).entries().len()) as u64)
                &&& final(self).base() == old(self).base()
                &&& final(self).entries().len() == old(self).entries().len() + 1
                &&& final(self).entries().drop_last() == old(self).entries()
                &&& final(self).entries().last().index == old(self).base() + old(self).entries().len()
                &&& final(self).entries().last().term == term
                &&& final(self).entries().last().command == command
            },
            old(self).base() + old(self).entries().len() > u64::MAX ==> (r matches Err(e) && e.is_runtime(
                "raft log index exhausted"@,
            )) && final(self).entries() == old(self).entries() && final(self).base() == old(self).base(),
    {
        proof {
            use_type_invariant(&*self);
        }
        if self.entries.len() as u128 + self.base_index as u128 > u64::MAX as u128 {
            return Err(Error::Runtime("raft log index exhausted".to_string()));
        }
        let index = self.base_index + self.entries.len() as u64;
        let entry = RaftLogEntry { index, term, timestamp: utc_now_micros(), command };
        let mut entries = Vec::new();
        std::mem::swap(&mut entries, &mut self.entries);
        entries.push(entry);
        *self = RaftLogStore { entries, base_index: self.base_index };
        Ok(index)
    }

    /// The entry at log index `index`, if held.
    pub fn get(&self, index: u64) -> (r: Option<&RaftLogEntry>)
        ensures
            self.base() <= index < self.base() + self.entries().len() ==> r == Some(&self.entries()[index - self.base()]),
            !(self.base() <= index < self.base() + self.entries().len()) ==> r is None,
    {
        if index < self.base_index {
            return None;
        }
        let pos = index - self.base_index;
        if pos as u128 >= self.entries.len() as u128 {
            return None;
        }
        Some(&self.entries[pos as usize])
    }

    /// The entries from index `from_index` (inclusive) to the end; all of
    /// them when `from_index` is before the base.
    pub fn entries_from(&self, from_index: u64) -> (r: Vec<&RaftLogEntry>)
        ensures
            ({
                let start = if from_index < self.base() {
                    0
                } else if from_index - self.base() > self.entries().len() {
                    self.entries().len() as int
                } else {
                    from_index - self.base()
                };
                crate::state::derefs(r@) == self.entries().subrange(start, self.entries().len() as int)
            }),
    {
        let n = self.entries.len();
        let start: usize = if from_index < self.base_index {
            0
        } else if (from_index - self.base_index) as u128 > n as u128 {
            n
        } else {
            (from_index - self.base_index) as usize
        };
        let mut out: Vec<&RaftLogEntry> = Vec::new();
        let mut i = start;
        while i < n
            invariant
                start <= i <= n,
                n == self.entries@.len(),
                crate::state::derefs(out@) == self.entries@.subrange(start as int, i as int),
            decreases n - i,
        {
            let e = &self.entries[i];
            proof {
                crate::state::lemma_derefs_push(out@, e);
            }
            out.push(e);
            assert(self.entries@.subrange(start as int, i + 1) =~= self.entries@.subrange(start as int, i as int).push(*e));
            i = i + 1;
        }
        out
    }

    /// The index of the last entry; the index before the base when the log
    /// holds none (0 for a fresh log).
    pub fn last_index(&self) -> (r: u64)
        ensures
            r == last_of(self.base(), self.entries().len()),
    {
        proof {
            use_type_invariant(self);
        }
        if self.entries.len() == 0 {
            if self.base_index == 0 {
                0
            } else {
                self.base_index - 1
            }
        } else {
            self.base_index + (self.entries.len() - 1) as u64
        }
    }

    /// The term of the last entry, or 0 when the log holds none.
    pub fn last_term(&self) -> (r: u64)
        ensures
            r == if self.entries().len() == 0 { 0 } else { self.entries().last().term },
    {
        if self.entries.len() == 0 {
            0
        } else {
            self.entries[self.entries.len() - 1].term
        }
    }

    /// Number of entries held.
    pub fn len(&self) -> (r: usize)
        ensures
            r == self.entries().len(),
    {
        self.entries.len()
    }

    /// Whether the log holds no entry.
    pub fn is_empty(&self) -> (r: bool)
        ensures
            r == (self.entries().len() == 0),
    {
        self.entries.len() == 0
    }

    /// Take a snapshot of `state` covering every entry held (its index is
    /// the last index, its term `last_included_term`), and drop those
    /// entries: the log is then empty and starts one past the snapshot.
    pub fn create_snapshot(&mut self, state: StateStore, last_included_term: u64) -> (r: RaftSnapshot)
        requires
            last_of(old(self).base(), old(self).entries().len()) < u64::MAX,
        ensures
            r.last_included_index == last_of(old(self).base(), old(self).entries().len()),
            r.last_included_term == last_included_term,
            r.state == state,
            final(self).entries().len() == 0,
            final(self).base() == r.last_included_index + 1,
    {
        proof {
            use_type_invariant(&*self);
        }
        let last = self.last_index();
        *self = RaftLogStore { entries: Vec::new(), base_index: last + 1 };
        RaftSnapshot { state, last_included_index: last, last_included_term }
    }

    /// Replace the log with a snapshot received from the leader: no entries,
    /// starting one past the snapshot.
    ///
    /// # Errors
    ///
    /// Returns [`Error::Runtime`] when the snapshot covers the last index a
    /// `u64` can hold, leaving the log unchanged.
    pub fn install_snapshot(&mut self, snapshot: &RaftSnapshot) -> (r: Result<()>)
        ensures
            snapshot.last_included_index < u64::MAX ==> r is Ok && final(self).entries().len() == 0 && final(self).base()
                == snapshot.last_included_index + 1,
            snapshot.last_included_index == u64::MAX ==> (r matches Err(e) && e.is_runtime("raft log index exhausted"@))
                && final(self).entries() == old(self).entries() && final(self).base() == old(self).base(),
    {
        if snapshot.last_included_index == u64::MAX {
            return Err(Error::Runtime("raft log index exhausted".to_string()));
        }
        *self = RaftLogStore { entries: Vec::new(), base_index: snapshot.last_included_index + 1 };
        Ok(())
    }

    /// Remove every entry at or above index `from_index`.
    pub fn truncate(&mut self, from_index: u64)
        ensures
            final(self).base() == old(self).base(),
            final(self).entries() == if from_index <= old(self).base() {
                Seq::<RaftLogEntry>::empty()
            } else if from_index - old(self).base() >= old(self).entries().len() {
                old(self).entries()
            } else {
                old(self).entries().take(from_index - old(self).base())
            },
    {
        proof {
            use_type_invariant(&*self);
        }
        let pos: u64 = if from_index >= self.base_index { from_index - self.base_index } else { 0 };
        if pos as u128 >= self.entries.len() as u128 {
            return;
        }
        let mut entries = Vec::new();
        std::mem::swap(&mut entries, &mut self.entries);
        entries.truncate(pos as usize);
        *self = RaftLogStore { entries, base_index: self.base_index };
    }
}

/// A read gives back what a write wrote: after a successful append, the
/// entry at the returned index has the term and command appended, and it is
/// the last entry.
pub proof fn law_append_then_get(before: Seq<RaftLogEntry>, base: u64, after: Seq<RaftLogEntry>, index: u64, term: u64, command: Command)
    requires
        index == base + before.len(),
        after.len() == before.len() + 1,
        after.drop_last() == before,
        after.last().term == term,
        after.last().command == command,
    ensures
        base <= index < base + after.len(),
        after[index - base].term == term,
        after[index - base].command == command,
        last_of(base, after.len()) == index,
        forall|j: int| base <= j < index ==> after[j - base] == #[trigger] before[j - base],
{
    assert forall|j: int| base <= j < index implies after[j - base] == #[trigger] before[j - base] by {
        assert(after.drop_last()[j - base] == after[j - base]);
    }
}

} // verus!
