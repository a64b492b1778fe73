//! Partition of the sample-index range into contiguous per-worker sub-ranges.

use vstd::prelude::*;
use vstd::arithmetic::div_mod::lemma_fundamental_div_mod;
use vstd::arithmetic::mul::lemma_mul_inequality;

verus! {

/// Total number of midpoint sample intervals across the whole [0,1] domain.
pub const INTERVALS: i64 = 10000000;

/// A contiguous block of sample indices owned by one worker.
///
/// The indices a worker evaluates are `start..=end`, inclusive on both
/// ends: the shared endpoint of two adjacent sub-ranges is evaluated by
/// both of their workers.
#[derive(Clone, Copy, Debug, PartialEq, Eq, Structural)]
pub struct SubRange {
    pub start: i64,
    pub end: i64,
}

impl SubRange {
    /// Whether sample index `j` is evaluated by the worker owning this sub-range.
    pub open spec fn covers(self, j: int) -> bool {
        self.start <= j <= self.end
    }
}

/// How many sample intervals each worker owns: the total divided by the
/// worker count, truncated; a remainder is silently dropped.
pub fn intervals_per_worker(total: i64, workers: i64) -> (r: i64)
    requires
        0 <= total,
        1 <= workers,
    ensures
        r == total as int / workers as int,
{
    total / workers
}

/// The sub-range of worker `w` (1-based), when each worker owns `ipw`
/// sample intervals: indices `ipw * (w - 1)` through `ipw * w`.
pub open spec fn sub_range_spec(ipw: int, w: int) -> SubRange {
    SubRange { start: (ipw * (w - 1)) as i64, end: (ipw * w) as i64 }
}

/// The full partition for `workers` workers, each owning `ipw` intervals.
pub open spec fn partition_spec(ipw: int, workers: int) -> Seq<SubRange> {
    Seq::new(workers as nat, |i: int| sub_range_spec(ipw, i + 1))
}

/// Partitions the sample range of `total` intervals into `workers`
/// contiguous sub-ranges. Worker `w` (1-based) owns indices
/// `ipw * (w - 1)` through `ipw * w` inclusive, where
/// `ipw = total / workers`: the sub-ranges tile `0..=ipw * workers`, and
/// each interior boundary index belongs to two adjacent sub-ranges.
pub fn partition(total: i64, workers: i64) -> (r: Vec<SubRange>)
    requires
        0 <= total,
        1 <= workers,
    ensures
        r@ == partition_spec(total as int / workers as int, workers as int),
        r@.len() == workers,
        forall|i: int| 0 <= i < workers ==> {
            &&& (#[trigger] r@[i]).start == (total as int / workers as int) * i
            &&& r@[i].end == (total as int / workers as int) * (i + 1)
        },
{
    let ipw = intervals_per_worker(total, workers);
    proof {
        lemma_partition_bounds(total as int, workers as int);
    }
    let ghost ipw_s: int = total as int / workers as int;
    let mut r: Vec<SubRange> = Vec::new();
    let mut done: i64 = 0;
    while done < workers
        invariant
            0 <= done <= workers,
            ipw == ipw_s,
            0 <= ipw_s,
            forall|v: int| 1 <= v <= workers ==>
                0 <= #[trigger] (ipw_s * (v - 1)) <= ipw_s * v <= i64::MAX,
            r@.len() == done,
            forall|i: int| 0 <= i < done ==> #[trigger] r@[i] == sub_range_spec(ipw_s, i + 1),
        decreases workers - done,
    {
        let w = done + 1;
        assert(0 <= ipw_s * (w - 1) <= ipw_s * w <= i64::MAX);
        let end = ipw * w;
        proof {
            assert(ipw_s * w - ipw_s == ipw_s * (w - 1)) by (nonlinear_arith);
        }
        let start = end - ipw;
        r.push(SubRange { start, end });
        done = done + 1;
    }
    proof {
        assert(r@ =~= partition_spec(ipw_s, workers as int));
        assert forall|i: int| 0 <= i < workers implies {
            &&& (#[trigger] r@[i]).start == ipw_s * i
            &&& r@[i].end == ipw_s * (i + 1)
        } by {
            assert(0 <= ipw_s * ((i + 1) - 1) <= ipw_s * (i + 1) <= i64::MAX);
        }
    }
    r
}

/// The partition tiles the sample range contiguously: the first sub-range
/// starts at index 0, each sub-range ends where the next one starts, and
/// the last one ends at `ipw * workers`.
pub proof fn lemma_partition_contiguous(ipw: int, workers: int)
    requires
        0 <= ipw,
        1 <= workers,
        ipw * workers <= i64::MAX,
    ensures
        partition_spec(ipw, workers)[0].start == 0,
        partition_spec(ipw, workers).last().end == ipw * workers,
        forall|i: int| 0 <= i < workers - 1 ==>
            (#[trigger] partition_spec(ipw, workers)[i]).end
                == partition_spec(ipw, workers)[i + 1].start,
{
    let rs = partition_spec(ipw, workers);
    assert(ipw * 0 == 0) by (nonlinear_arith);
    assert forall|v: int| 0 <= v <= workers implies 0 <= #[trigger] (ipw * v) <= i64::MAX by {
        assert(0 <= ipw * v) by (nonlinear_arith)
            requires
                0 <= ipw,
                0 <= v,
        ;
        lemma_mul_inequality(v, workers, ipw);
        assert(v * ipw == ipw * v && workers * ipw == ipw * workers) by (nonlinear_arith);
    }
    assert forall|i: int| 0 <= i < workers - 1 implies
        (#[trigger] rs[i]).end == rs[i + 1].start by {
        assert(rs[i].end == (ipw * (i + 1)) as i64);
        assert(rs[i + 1].start == (ipw * (i + 1)) as i64);
    }
}

/// What the truncating division drops: the partition covers exactly
/// `total - total % workers` of the `total` sample intervals, the
/// remainder of the uneven division being silently left out.
pub proof fn lemma_dropped_remainder(total: int, workers: int)
    requires
        0 <= total,
        1 <= workers,
    ensures
        (total / workers) * workers == total - total % workers,
        0 <= total % workers < workers,
        (total / workers) * workers <= total,
{
    lemma_fundamental_div_mod(total, workers);
    assert(workers * (total / workers) == (total / workers) * workers) by (nonlinear_arith);
}

/// Every multiple `ipw * v` for `v` up to `workers` stays within the
/// interval total, so the partition's index arithmetic cannot overflow.
pub(crate) proof fn lemma_partition_bounds(total: int, workers: int)
    requires
        0 <= total <= i64::MAX,
        1 <= workers,
    ensures
        0 <= total / workers,
        forall|v: int| 1 <= v <= workers ==>
            0 <= #[trigger] ((total / workers) * (v - 1)) <= (total / workers) * v <= i64::MAX,
{
    let ipw = total / workers;
    lemma_fundamental_div_mod(total, workers);
    assert(0 <= ipw) by (nonlinear_arith)
        requires
            0 <= total,
            1 <= workers,
            total == workers * ipw + total % workers,
            0 <= total % workers < workers,
    ;
    assert forall|v: int| 1 <= v <= workers implies
        0 <= #[trigger] (ipw * (v - 1)) <= ipw * v <= i64::MAX by {
        assert(0 <= ipw * (v - 1) <= ipw * v) by (nonlinear_arith)
            requires
                0 <= ipw,
                1 <= v,
        ;
        lemma_mul_inequality(v, workers, ipw);
        assert(v * ipw == ipw * v) by (nonlinear_arith);
        assert(workers * ipw == ipw * workers) by (nonlinear_arith);
        assert(ipw * v <= total);
    }
}

} // verus!
