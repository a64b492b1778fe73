//! How often each sample index is evaluated under a partition.
//!
//! Each worker's sub-range is inclusive on both ends, so the index shared
//! by two adjacent sub-ranges is evaluated twice. The lemmas here pin that
//! bias down exactly: every interior boundary index is evaluated twice,
//! every other index of the tiled range once, and everything else not at
//! all.

use vstd::prelude::*;
use crate::partition::{SubRange, sub_range_spec, partition_spec};

verus! {

/// How many of the sub-ranges evaluate sample index `j`.
pub open spec fn coverage_count(rs: Seq<SubRange>, j: int) -> nat
    decreases rs.len(),
{
    if rs.len() == 0 {
        0
    } else {
        coverage_count(rs.drop_last(), j) + if rs.last().covers(j) { 1nat } else { 0nat }
    }
}

/// Whether `j` is a boundary index shared by two adjacent sub-ranges: the
/// end of worker `w`'s sub-range and the start of worker `w + 1`'s, for
/// some `w` strictly inside the partition.
pub open spec fn is_interior_boundary(ipw: int, workers: int, j: int) -> bool {
    exists|w: int| 1 <= w < workers && j == #[trigger] (ipw * w)
}

/// Multiplication by a positive factor keeps strict order.
proof fn lemma_mul_pos_strict_mono(ipw: int, a: int, b: int)
    by (nonlinear_arith)
    requires
        1 <= ipw,
        a < b,
    ensures
        ipw * a < ipw * b,
{
}

/// Under the partition of `workers` sub-ranges of `ipw` intervals each,
/// a sample index inside the tiled range `0..=ipw * workers` is evaluated
/// exactly once, except that each interior boundary index is evaluated
/// exactly twice; an index outside the tiled range is never evaluated.
pub proof fn lemma_partition_coverage(ipw: int, workers: int, j: int)
    requires
        1 <= ipw,
        1 <= workers,
        ipw * workers <= i64::MAX,
    ensures
        coverage_count(partition_spec(ipw, workers), j) == (
            if j < 0 || j > ipw * workers {
                0nat
            } else if is_interior_boundary(ipw, workers, j) {
                2nat
            } else {
                1nat
            }
        ),
    decreases workers,
{
    let rs = partition_spec(ipw, workers);
    let last = sub_range_spec(ipw, workers);
    assert(0 <= ipw * (workers - 1) < ipw * workers) by (nonlinear_arith)
        requires
            1 <= ipw,
            1 <= workers,
    ;
    assert(last.start == ipw * (workers - 1) && last.end == ipw * workers);
    if workers == 1 {
        assert(ipw * (workers - 1) == 0) by (nonlinear_arith)
            requires
                workers == 1,
        ;
        assert(rs.drop_last() =~= partition_spec(ipw, 0));
        assert(coverage_count(rs.drop_last(), j) == 0);
        assert(!is_interior_boundary(ipw, 1, j));
    } else {
        let prev = partition_spec(ipw, workers - 1);
        assert(rs.drop_last() =~= prev);
        lemma_partition_coverage(ipw, workers - 1, j);
        if j < 0 {
            assert(!last.covers(j));
            assert(!is_interior_boundary(ipw, workers, j));
        } else if j > ipw * workers {
            assert(j > ipw * (workers - 1));
            assert(!last.covers(j));
            assert(!is_interior_boundary(ipw, workers, j)) by {
                assert forall|w: int| 1 <= w < workers implies j != #[trigger] (ipw * w) by {
                    lemma_mul_pos_strict_mono(ipw, w, workers);
                }
            }
        } else if j < ipw * (workers - 1) {
            assert(!last.covers(j));
            // An interior boundary of the whole partition below the last
            // sub-range is an interior boundary of the shorter partition,
            // and conversely.
            if is_interior_boundary(ipw, workers, j) {
                let w = choose|w: int| 1 <= w < workers && j == #[trigger] (ipw * w);
                if w == workers - 1 {
                    assert(j == ipw * (workers - 1));
                    assert(false);
                }
                assert(1 <= w < workers - 1 && j == ipw * w);
                assert(is_interior_boundary(ipw, workers - 1, j));
            }
            if is_interior_boundary(ipw, workers - 1, j) {
                let w = choose|w: int| 1 <= w < workers - 1 && j == #[trigger] (ipw * w);
                assert(1 <= w < workers && j == ipw * w);
                assert(is_interior_boundary(ipw, workers, j));
            }
        } else if j == ipw * (workers - 1) {
            assert(last.covers(j));
            // The shared endpoint: top of the shorter partition, start of
            // the last sub-range; it is counted once by the shorter
            // partition and once more by the last sub-range.
            assert(!is_interior_boundary(ipw, workers - 1, j)) by {
                assert forall|w: int| 1 <= w < workers - 1 implies j != #[trigger] (ipw * w) by {
                    lemma_mul_pos_strict_mono(ipw, w, workers - 1);
                }
            }
            assert(is_interior_boundary(ipw, workers, j)) by {
                assert(1 <= workers - 1 < workers && j == ipw * (workers - 1));
            }
            assert(coverage_count(prev, j) == 1);
        } else {
            // Strictly inside or at the very end of the last sub-range.
            assert(ipw * (workers - 1) < j <= ipw * workers);
            assert(last.covers(j));
            assert(coverage_count(prev, j) == 0);
            assert(!is_interior_boundary(ipw, workers, j)) by {
                assert forall|w: int| 1 <= w < workers implies j != #[trigger] (ipw * w) by {
                    if w < workers - 1 {
                        lemma_mul_pos_strict_mono(ipw, w, workers - 1);
                    }
                }
            }
        }
    }
}

/// With a single worker the partition evaluates every sample index of
/// `0..=total` exactly once and no other index at all: the parallel plan
/// for one worker is the plain sequential sum over the full range.
pub proof fn lemma_single_worker_coverage(total: int, j: int)
    requires
        1 <= total <= i64::MAX,
    ensures
        coverage_count(partition_spec(total, 1), j) == (
            if 0 <= j <= total {
                1nat
            } else {
                0nat
            }
        ),
{
    lemma_partition_coverage(total, 1, j);
    assert(total * 1 == total) by (nonlinear_arith);
    assert(!is_interior_boundary(total, 1, j));
}

/// When `workers` evenly divides `total`, the partition for `workers`
/// workers evaluates exactly the same sample indices as the single-worker
/// partition, except that each of the interior boundary indices is
/// evaluated once more: the estimate deviates from the single-worker one
/// only by those double-counted boundary samples.
pub proof fn lemma_multi_vs_single_coverage(total: int, workers: int, j: int)
    requires
        1 <= workers,
        1 <= total / workers,
        total % workers == 0,
        total <= i64::MAX,
    ensures
        coverage_count(partition_spec(total / workers, workers), j) ==
            coverage_count(partition_spec(total, 1), j)
            + (if is_interior_boundary(total / workers, workers, j) { 1nat } else { 0nat }),
{
    let ipw = total / workers;
    vstd::arithmetic::div_mod::lemma_fundamental_div_mod(total, workers);
    assert(ipw * workers == total) by (nonlinear_arith)
        requires
            total == workers * ipw + total % workers,
            total % workers == 0,
    ;
    assert(1 <= total) by (nonlinear_arith)
        requires
            1 <= ipw,
            1 <= workers,
            ipw * workers == total,
    ;
    lemma_partition_coverage(ipw, workers, j);
    lemma_single_worker_coverage(total, j);
    if is_interior_boundary(ipw, workers, j) {
        let w = choose|w: int| 1 <= w < workers && j == #[trigger] (ipw * w);
        assert(0 < ipw * w < ipw * workers) by (nonlinear_arith)
            requires
                1 <= ipw,
                1 <= w < workers,
        ;
        assert(0 <= j <= total);
    }
}

/// The interior boundary indices of a partition, in order: the shared
/// endpoints between adjacent sub-ranges, `workers - 1` of them.
pub open spec fn boundaries(ipw: int, workers: int) -> Seq<int> {
    Seq::new((workers - 1) as nat, |i: int| ipw * (i + 1))
}

/// A partition of `workers` sub-ranges has exactly `workers - 1`
/// double-counted sample indices: the interior boundary indices are the
/// entries of `boundaries`, and those entries are pairwise distinct.
pub proof fn lemma_boundaries_exact(ipw: int, workers: int)
    requires
        1 <= ipw,
        1 <= workers,
    ensures
        boundaries(ipw, workers).len() == workers - 1,
        forall|j: int| is_interior_boundary(ipw, workers, j)
            <==> boundaries(ipw, workers).contains(j),
        forall|a: int, b: int| 0 <= a < b < workers - 1 ==>
            boundaries(ipw, workers)[a] != boundaries(ipw, workers)[b],
{
    let bs = boundaries(ipw, workers);
    assert forall|j: int| is_interior_boundary(ipw, workers, j) implies bs.contains(j) by {
        let w = choose|w: int| 1 <= w < workers && j == #[trigger] (ipw * w);
        assert(bs[w - 1] == j);
    }
    assert forall|j: int| bs.contains(j) implies is_interior_boundary(ipw, workers, j) by {
        let i = choose|i: int| 0 <= i < bs.len() && bs[i] == j;
        assert(1 <= i + 1 < workers && j == ipw * (i + 1));
    }
    assert forall|a: int, b: int| 0 <= a < b < workers - 1 implies bs[a] != bs[b] by {
        lemma_mul_pos_strict_mono(ipw, a + 1, b + 1);
    }
}

/// The sample indices that the partition of `total` intervals over
/// `workers` workers evaluates twice, in increasing order: the
/// `workers - 1` interior boundary indices shared by adjacent sub-ranges.
pub fn interior_boundaries(total: i64, workers: i64) -> (r: Vec<i64>)
    requires
        0 <= total,
        1 <= workers,
    ensures
        r@.len() == workers - 1,
        forall|i: int| 0 <= i < workers - 1 ==>
            #[trigger] r@[i] == boundaries(total as int / workers as int, workers as int)[i],
        forall|i: int| 0 <= i < workers - 1 ==>
            #[trigger] r@[i] == (total as int / workers as int) * (i + 1),
{
    let ipw = crate::partition::intervals_per_worker(total, workers);
    proof {
        crate::partition::lemma_partition_bounds(total as int, workers as int);
    }
    let ghost ipw_s: int = total as int / workers as int;
    let mut r: Vec<i64> = Vec::new();
    let mut w: i64 = 1;
    while w < workers
        invariant
            1 <= w <= workers,
            ipw == ipw_s,
            0 <= ipw_s,
            forall|v: int| 1 <= v <= workers ==>
                0 <= #[trigger] (ipw_s * (v - 1)) <= ipw_s * v <= i64::MAX,
            r@.len() == w - 1,
            forall|i: int| 0 <= i < w - 1 ==> #[trigger] r@[i] == ipw_s * (i + 1),
        decreases workers - w,
    {
        assert(0 <= ipw_s * (w - 1) <= ipw_s * w <= i64::MAX);
        let b = ipw * w;
        r.push(b);
        w = w + 1;
    }
    r
}

/// The number of sample evaluations a partition performs: the sizes of
/// its inclusive sub-ranges, summed.
pub open spec fn eval_count(rs: Seq<SubRange>) -> int
    decreases rs.len(),
{
    if rs.len() == 0 {
        0
    } else {
        eval_count(rs.drop_last()) + (rs.last().end - rs.last().start + 1)
    }
}

/// A partition of `workers` sub-ranges of `ipw` intervals each performs
/// `workers * (ipw + 1)` sample evaluations: `ipw * workers + 1` distinct
/// sample indices plus the `workers - 1` double-counted boundary indices.
pub proof fn lemma_eval_count(ipw: int, workers: int)
    requires
        1 <= ipw,
        0 <= workers,
        ipw * workers <= i64::MAX,
    ensures
        eval_count(partition_spec(ipw, workers)) == workers * (ipw + 1),
        workers >= 1 ==> eval_count(partition_spec(ipw, workers))
            == (ipw * workers + 1) + (workers - 1),
    decreases workers,
{
    let rs = partition_spec(ipw, workers);
    if workers == 0 {
        assert(rs =~= Seq::<SubRange>::empty());
        assert(workers * (ipw + 1) == 0) by (nonlinear_arith)
            requires
                workers == 0,
        ;
    } else {
        let prev = partition_spec(ipw, workers - 1);
        assert(rs.drop_last() =~= prev);
        assert(0 <= ipw * (workers - 1) < ipw * workers) by (nonlinear_arith)
            requires
                1 <= ipw,
                1 <= workers,
        ;
        lemma_eval_count(ipw, workers - 1);
        let last = sub_range_spec(ipw, workers);
        assert(last.start == ipw * (workers - 1) && last.end == ipw * workers);
        assert((workers - 1) * (ipw + 1) + (ipw * workers - ipw * (workers - 1) + 1)
            == workers * (ipw + 1)) by (nonlinear_arith);
        assert(workers * (ipw + 1) == (ipw * workers + 1) + (workers - 1)) by (nonlinear_arith);
    }
}

/// The partition is deterministic: any two sub-range vectors that satisfy
/// the partition's contract for the same interval total and worker count
/// are equal, index for index.
pub proof fn lemma_partition_deterministic(a: Seq<SubRange>, b: Seq<SubRange>, ipw: int, workers: int)
    requires
        a.len() == workers,
        b.len() == workers,
        forall|i: int| 0 <= i < workers ==> (#[trigger] a[i]).start == ipw * i && a[i].end == ipw * (i + 1),
        forall|i: int| 0 <= i < workers ==> (#[trigger] b[i]).start == ipw * i && b[i].end == ipw * (i + 1),
    ensures
        a == b,
{
    assert forall|i: int| 0 <= i < workers implies a[i] == b[i] by {
        assert(a[i].start == b[i].start && a[i].end == b[i].end);
    }
    assert(a =~= b);
}

} // verus!

