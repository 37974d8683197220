//! Scan statistics: three monotonically increasing counters for files
//! visited, directories visited, and non-fatal errors encountered. Each
//! concurrent scan task keeps its own `ScanStats` and the counters are merged
//! at every fan-in, which keeps the counts exact whatever the parallelism;
//! the lemmas below show the merged totals do not depend on the order the
//! tasks complete in.

use vstd::prelude::*;
use crate::sums::{weight_sum, lemma_weight_sum_permutation};

verus! {

pub struct ScanStats {
    /// Files visited so far.
    pub files_scanned: u64,
    /// Directories visited so far.
    pub dirs_scanned: u64,
    /// Non-fatal errors: unreadable directories, entries that could not be
    /// resolved, children that vanished mid-scan.
    pub errors: u64,
}

pub open spec fn files_weight() -> spec_fn(ScanStats) -> int {
    |s: ScanStats| s.files_scanned as int
}

pub open spec fn dirs_weight() -> spec_fn(ScanStats) -> int {
    |s: ScanStats| s.dirs_scanned as int
}

pub open spec fn errors_weight() -> spec_fn(ScanStats) -> int {
    |s: ScanStats| s.errors as int
}

/// Total of the `files_scanned` counters over a batch of per-task statistics.
pub open spec fn files_total(s: Seq<ScanStats>) -> int {
    weight_sum(s, files_weight())
}

/// Total of the `dirs_scanned` counters over a batch of per-task statistics.
pub open spec fn dirs_total(s: Seq<ScanStats>) -> int {
    weight_sum(s, dirs_weight())
}

/// Total of the `errors` counters over a batch of per-task statistics.
pub open spec fn errors_total(s: Seq<ScanStats>) -> int {
    weight_sum(s, errors_weight())
}

impl ScanStats {
    pub fn new() -> (r: ScanStats)
        ensures
            r.files_scanned == 0,
            r.dirs_scanned == 0,
            r.errors == 0,
    {
        ScanStats { files_scanned: 0, dirs_scanned: 0, errors: 0 }
    }

    pub fn files_scanned(&self) -> (r: u64)
        ensures
            r == self.files_scanned,
    {
        self.files_scanned
    }

    pub fn dirs_scanned(&self) -> (r: u64)
        ensures
            r == self.dirs_scanned,
    {
        self.dirs_scanned
    }

    pub fn errors(&self) -> (r: u64)
        ensures
            r == self.errors,
    {
        self.errors
    }

    /// One more file was visited; the other counters are untouched.
    pub fn record_file(&mut self)
        requires
            old(self).files_scanned < u64::MAX,
        ensures
            final(self).files_scanned == old(self).files_scanned + 1,
            final(self).dirs_scanned == old(self).dirs_scanned,
            final(self).errors == old(self).errors,
    {
        self.files_scanned = self.files_scanned + 1;
    }

    /// One more directory was visited; the other counters are untouched.
    pub fn record_dir(&mut self)
        requires
            old(self).dirs_scanned < u64::MAX,
        ensures
            final(self).dirs_scanned == old(self).dirs_scanned + 1,
            final(self).files_scanned == old(self).files_scanned,
            final(self).errors == old(self).errors,
    {
        self.dirs_scanned = self.dirs_scanned + 1;
    }

    /// One failed entry is counted by exactly one error; what was counted for
    /// the entries that did succeed is untouched.
    pub fn record_error(&mut self)
        requires
            old(self).errors < u64::MAX,
        ensures
            final(self).errors == old(self).errors + 1,
            final(self).files_scanned == old(self).files_scanned,
            final(self).dirs_scanned == old(self).dirs_scanned,
    {
        self.errors = self.errors + 1;
    }

    /// Folds the counters of a finished child scan into these counters,
    /// component by component.
    pub fn merge(&mut self, other: &ScanStats)
        requires
            old(self).files_scanned + other.files_scanned <= u64::MAX,
            old(self).dirs_scanned + other.dirs_scanned <= u64::MAX,
            old(self).errors + other.errors <= u64::MAX,
        ensures
            final(self).files_scanned == old(self).files_scanned + other.files_scanned,
            final(self).dirs_scanned == old(self).dirs_scanned + other.dirs_scanned,
            final(self).errors == old(self).errors + other.errors,
    {
        self.files_scanned = self.files_scanned + other.files_scanned;
        self.dirs_scanned = self.dirs_scanned + other.dirs_scanned;
        self.errors = self.errors + other.errors;
    }
}

impl Default for ScanStats {
    fn default() -> (r: ScanStats)
        ensures
            r.files_scanned == 0,
            r.dirs_scanned == 0,
            r.errors == 0,
    {
        ScanStats { files_scanned: 0, dirs_scanned: 0, errors: 0 }
    }
}

/// Counter correctness under concurrency: per-task counters merged at fan-in
/// give the same totals whatever order the tasks complete in, so a scan at
/// parallelism one and a scan at any parallelism report identical
/// `files_scanned`, `dirs_scanned` and `errors` totals. `merge` adds
/// counters component by component, hence folding a batch in any order yields
/// these sequence totals.
pub proof fn lemma_totals_order_independent(s1: Seq<ScanStats>, s2: Seq<ScanStats>)
    requires
        s1.to_multiset() == s2.to_multiset(),
    ensures
        files_total(s1) == files_total(s2),
        dirs_total(s1) == dirs_total(s2),
        errors_total(s1) == errors_total(s2),
{
    lemma_weight_sum_permutation(s1, s2, files_weight());
    lemma_weight_sum_permutation(s1, s2, dirs_weight());
    lemma_weight_sum_permutation(s1, s2, errors_weight());
}

} // verus!
