//! The count of a run over a batch of files. A file that fails is counted
//! and the run goes on: every file is attempted whatever became of the files
//! before it.

use vstd::prelude::*;

verus! {

/// How many files a run attempted and how many of them failed.
#[derive(Debug, Clone, Copy, PartialEq, Eq, Structural)]
pub struct BatchReport {
    pub attempted: usize,
    pub failed: usize,
}

/// The number of failures among the outcomes, where `true` stands for a file
/// that was written and `false` for one that failed.
pub open spec fn failures(outcomes: Seq<bool>) -> nat
    decreases outcomes.len(),
{
    if outcomes.len() == 0 {
        0
    } else if outcomes.last() {
        failures(outcomes.drop_last())
    } else {
        failures(outcomes.drop_last()) + 1
    }
}

/// No more files fail than were attempted.
pub proof fn lemma_failures_bounded(outcomes: Seq<bool>)
    ensures
        failures(outcomes) <= outcomes.len(),
    decreases outcomes.len(),
{
    if outcomes.len() > 0 {
        lemma_failures_bounded(outcomes.drop_last());
    }
}

impl BatchReport {
    /// Counts a run from the outcome of each file, one entry per file.
    pub fn summarize(outcomes: &Vec<bool>) -> (report: BatchReport)
        ensures
            report.attempted == outcomes@.len(),
            report.failed == failures(outcomes@),
            report.failed <= report.attempted,
    {
        let mut failed: usize = 0;
        let mut at: usize = 0;
        assert(outcomes@.take(0).len() == 0);
        while at < outcomes.len()
            invariant
                at <= outcomes@.len(),
                failed == failures(outcomes@.take(at as int)),
                failed <= at,
            decreases outcomes@.len() - at,
        {
            proof {
                let next = outcomes@.take(at + 1);
                assert(next.drop_last() == outcomes@.take(at as int));
                assert(next.last() == outcomes@[at as int]);
            }
            if !outcomes[at] {
                failed = failed + 1;
            }
            at = at + 1;
        }
        assert(outcomes@.take(at as int) == outcomes@);
        BatchReport { attempted: outcomes.len(), failed }
    }
}

} // verus!
