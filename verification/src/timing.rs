//! Shortest, longest and average time taken per file.

use vstd::prelude::*;

verus! {

/// Shortest, longest and average of a list of durations, in nanoseconds.
/// All three are zero for an empty list.
#[derive(Debug, Clone, Copy, PartialEq, Eq, Structural)]
pub struct TimingSummary {
    pub min: u64,
    pub max: u64,
    pub average: u64,
}

/// Sum of `times`.
pub open spec fn total_time(times: Seq<u64>) -> nat
    decreases times.len(),
{
    if times.len() == 0 {
        0
    } else {
        total_time(times.drop_last()) + times.last() as nat
    }
}

/// `least` is an element of `times` and no element is smaller.
pub open spec fn is_least(times: Seq<u64>, least: u64) -> bool {
    &&& exists|i: int| 0 <= i < times.len() && times[i] == least
    &&& forall|i: int| 0 <= i < times.len() ==> least <= times[i]
}

/// `greatest` is an element of `times` and no element is greater.
pub open spec fn is_greatest(times: Seq<u64>, greatest: u64) -> bool {
    &&& exists|i: int| 0 <= i < times.len() && times[i] == greatest
    &&& forall|i: int| 0 <= i < times.len() ==> times[i] <= greatest
}

/// What [`timing_summary`] reports for `times`.
pub open spec fn summarizes(times: Seq<u64>, summary: TimingSummary) -> bool {
    if times.len() == 0 {
        summary == (TimingSummary { min: 0, max: 0, average: 0 })
    } else {
        &&& is_least(times, summary.min)
        &&& is_greatest(times, summary.max)
        &&& summary.average == total_time(times) / times.len()
    }
}

/// A sum lies between the length times a lower bound and the length times
/// an upper bound of its terms.
pub proof fn lemma_total_time_bounds(times: Seq<u64>, low: u64, high: u64)
    requires
        forall|i: int| 0 <= i < times.len() ==> low <= #[trigger] times[i] <= high,
    ensures
        times.len() * low <= total_time(times) <= times.len() * high,
    decreases times.len(),
{
    if times.len() > 0 {
        let front = times.drop_last();
        lemma_total_time_bounds(front, low, high);
        assert(low <= times[times.len() - 1] <= high);
        assert(times.len() * low == front.len() * low + low) by (nonlinear_arith)
            requires
                times.len() == front.len() + 1,
        ;
        assert(times.len() * high == front.len() * high + high) by (nonlinear_arith)
            requires
                times.len() == front.len() + 1,
        ;
    }
}

/// The average lies between the shortest and the longest time.
pub proof fn lemma_average_between(times: Seq<u64>, summary: TimingSummary)
    requires
        summarizes(times, summary),
    ensures
        summary.min <= summary.average <= summary.max,
{
    if times.len() > 0 {
        lemma_total_time_bounds(times, summary.min, summary.max);
        let n = times.len() as int;
        let total = total_time(times) as int;
        let low = summary.min as int;
        let high = summary.max as int;
        assert(low <= total / n <= high) by (nonlinear_arith)
            requires
                n > 0,
                n * low <= total <= n * high,
        ;
    }
}

/// Shortest, longest and average of `times`; all zero when `times` is empty.
pub fn timing_summary(times: &[u64]) -> (summary: TimingSummary)
    ensures
        summarizes(times@, summary),
        summary.min <= summary.average <= summary.max,
{
    if times.len() == 0 {
        return TimingSummary { min: 0, max: 0, average: 0 };
    }
    let mut min: u64 = times[0];
    let mut max: u64 = times[0];
    let mut total: u128 = 0;
    let mut i: usize = 0;
    while i < times.len()
        invariant
            i <= times@.len(),
            times@.len() > 0,
            total == total_time(times@.take(i as int)),
            total <= i * 0xFFFF_FFFF_FFFF_FFFF,
            exists|j: int| 0 <= j < times@.len() && times@[j] == min,
            exists|j: int| 0 <= j < times@.len() && times@[j] == max,
            forall|j: int| 0 <= j < i ==> min <= #[trigger] times@[j] <= max,
        decreases times@.len() - i,
    {
        let t = times[i];
        proof {
            assert(times@.take(i + 1).drop_last() =~= times@.take(i as int));
            assert((i + 1) * 0xFFFF_FFFF_FFFF_FFFF == i * 0xFFFF_FFFF_FFFF_FFFF
                + 0xFFFF_FFFF_FFFF_FFFF) by (nonlinear_arith);
            assert((i + 1) * 0xFFFF_FFFF_FFFF_FFFF <= u128::MAX) by (nonlinear_arith)
                requires
                    0 <= i + 1 <= 0xFFFF_FFFF_FFFF_FFFF,
            ;
        }
        if t < min {
            min = t;
        }
        if t > max {
            max = t;
        }
        total = total + t as u128;
        i = i + 1;
    }
    proof {
        assert(times@.take(times@.len() as int) =~= times@);
        lemma_total_time_bounds(times@, min, max);
        let n = times@.len() as int;
        let sum = total as int;
        let low = min as int;
        let high = max as int;
        assert(low <= sum / n <= high) by (nonlinear_arith)
            requires
                n > 0,
                n * low <= sum <= n * high,
        ;
    }
    let average = (total / times.len() as u128) as u64;
    TimingSummary { min, max, average }
}

} // verus!
