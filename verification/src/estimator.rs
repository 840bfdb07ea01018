//! The estimator: the counterfactual serial wall clock of a run, and the
//! time the caches and the parallelism saved.
use vstd::prelude::*;

use crate::pipeline::{spec_was_cached, Action};

verus! {

/// What a run would have cost serially, and what was saved.
#[derive(Debug)]
pub struct Estimate {
    /// The sum of every non-cached action's duration, saturating.
    pub baseline_ms: u64,
    /// How far the wall clock beat the baseline, where it did.
    pub savings_ms: Option<u64>,
}

/// The saturating sum of the durations of the non-cached actions.
pub open spec fn spec_baseline(results: Seq<Action>) -> int
    decreases results.len(),
{
    if results.len() == 0 {
        0
    } else {
        let rest = spec_baseline(results.drop_last());
        let a = results.last();
        let d = if spec_was_cached(a.status) {
            0int
        } else {
            match a.duration_ms {
                Some(ms) => ms as int,
                None => 0int,
            }
        };
        if rest + d > u64::MAX {
            u64::MAX as int
        } else {
            rest + d
        }
    }
}

/// The baseline is never negative and fits a machine word.
pub proof fn lemma_baseline_bounds(results: Seq<Action>)
    ensures
        0 <= spec_baseline(results) <= u64::MAX,
    decreases results.len(),
{
    if results.len() > 0 {
        lemma_baseline_bounds(results.drop_last());
    }
}

/// Compute the estimate: the baseline is what the non-cached actions cost
/// together; the savings are the baseline's lead over the wall clock,
/// where it has one.
pub fn calculate(results: &Vec<Action>, wall_ms: u64) -> (r: Estimate)
    ensures
        r.baseline_ms == spec_baseline(results@),
        r.savings_ms == (if spec_baseline(results@) > wall_ms {
            Some((spec_baseline(results@) - wall_ms) as u64)
        } else {
            None::<u64>
        }),
{
    let n = results.len();
    let mut baseline: u64 = 0;
    let mut i: usize = 0;
    while i < n
        invariant
            n == results@.len(),
            0 <= i <= n,
            baseline == spec_baseline(results@.take(i as int)),
        decreases n - i,
    {
        proof {
            lemma_baseline_bounds(results@.take(i as int));
        }
        let a = &results[i];
        let d: u64 = if a.was_cached() {
            0
        } else {
            match a.duration_ms {
                Some(ms) => ms,
                None => 0,
            }
        };
        if baseline > u64::MAX - d {
            baseline = u64::MAX;
        } else {
            baseline = baseline + d;
        }
        i += 1;
        proof {
            assert(results@.take(i as int).drop_last() =~= results@.take(i - 1));
            assert(results@.take(i as int).last() == results@[i - 1]);
        }
    }
    proof {
        assert(results@.take(n as int) =~= results@);
        lemma_baseline_bounds(results@);
    }
    let savings = if baseline > wall_ms {
        Some(baseline - wall_ms)
    } else {
        None
    };
    Estimate { baseline_ms: baseline, savings_ms: savings }
}

} // verus!
