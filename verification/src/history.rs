//! The append-only match history. Every terminal challenge — resolved,
//! cancelled or forfeited — leaves exactly one record; records are never
//! mutated or deleted. `recent` serves the read view: the `n` newest
//! records, newest first.

use crate::challenge::Outcome;
use vstd::prelude::*;

verus! {

/// One immutable fact about a closed challenge. Positions are the 1-based
/// ladder positions of the two parties just before and just after the
/// transition; for cancellations they are equal.
#[derive(Clone, Copy, Debug, PartialEq, Eq)]
pub struct HistoryRecord {
    /// Channel the tournament lives in.
    pub channel: u64,
    /// Time of the terminal transition.
    pub timestamp: u64,
    pub challenger: u64,
    pub defender: u64,
    /// The party whose report closed the challenge.
    pub reporter: u64,
    pub challenger_pos_before: u64,
    pub defender_pos_before: u64,
    pub challenger_pos_after: u64,
    pub defender_pos_after: u64,
    pub outcome: Outcome,
}

/// Append-only log of history records, oldest first.
#[derive(Debug)]
pub struct HistoryLog {
    pub records: Vec<HistoryRecord>,
}

impl View for HistoryLog {
    type V = Seq<HistoryRecord>;

    open spec fn view(&self) -> Seq<HistoryRecord> {
        self.records@
    }
}

impl HistoryLog {
    /// The empty log.
    pub fn empty() -> (r: HistoryLog)
        ensures
            r@ == Seq::<HistoryRecord>::empty(),
    {
        HistoryLog { records: Vec::new() }
    }

    pub fn len(&self) -> (r: usize)
        ensures
            r == self@.len(),
    {
        self.records.len()
    }

    /// Append one record. The log only ever grows at the end.
    pub fn append(&mut self, r: HistoryRecord)
        ensures
            final(self)@ == old(self)@.push(r),
    {
        self.records.push(r);
    }

    /// The `limit` most recent records, newest first: element `i` of the
    /// result is the record `i` steps from the end of the log.
    pub fn recent(&self, limit: usize) -> (r: Vec<HistoryRecord>)
        ensures
            r@.len() == if limit <= self@.len() { limit as int } else { self@.len() as int },
            forall|i: int| 0 <= i < r@.len() ==> r@[i] == self@[self@.len() - 1 - i],
    {
        let n: usize = if limit <= self.records.len() {
            limit
        } else {
            self.records.len()
        };
        let mut out: Vec<HistoryRecord> = Vec::new();
        let mut i: usize = 0;
        while i < n
            invariant
                n <= self@.len(),
                i <= n,
                out@.len() == i as int,
                forall|j: int| 0 <= j < i as int ==> out@[j] == self@[self@.len() - 1 - j],
            decreases n - i,
        {
            let rec = self.records[self.records.len() - 1 - i];
            out.push(rec);
            i = i + 1;
        }
        out
    }

    /// An exact copy of the log.
    pub fn duplicate(&self) -> (r: HistoryLog)
        ensures
            r@ == self@,
    {
        let mut records: Vec<HistoryRecord> = Vec::new();
        let mut i: usize = 0;
        while i < self.records.len()
            invariant
                i <= self@.len(),
                records@ == self@.subrange(0, i as int),
            decreases self@.len() - i,
        {
            records.push(self.records[i]);
            proof {
                assert(records@ =~= self@.subrange(0, i as int + 1));
            }
            i = i + 1;
        }
        proof {
            assert(records@ =~= self@);
        }
        HistoryLog { records }
    }
}

} // verus!
