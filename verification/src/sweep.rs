//! The benchmark sweep: worker counts from 1 to the number of available
//! processing units, each repeated a fixed number of times.

use vstd::prelude::*;

verus! {

/// How many timing repetitions the sweep performs per worker count.
pub const REPETITIONS: usize = 20;

/// Relies on num_cpus::get: the number of logical CPUs of the current
/// system; its documentation guarantees the result is at least 1.
#[verifier::external_body]
pub fn available_cpus() -> (n: usize)
    ensures
        1 <= n,
{
    num_cpus::get()
}

/// The worker counts of the whole sweep over `p` processing units, in
/// emission order: `REPETITIONS` entries for count 1, then for count 2,
/// and so on up to `p`. Entry `i` is `1 + i / REPETITIONS`.
pub fn sweep_worker_counts(p: usize) -> (r: Vec<usize>)
    requires
        1 <= p,
    ensures
        r@.len() == REPETITIONS * p,
        forall|i: int| 0 <= i < r@.len() ==> #[trigger] r@[i] == 1 + i / (REPETITIONS as int),
{
    let mut r: Vec<usize> = Vec::new();
    let mut done: usize = 0;
    while done < p
        invariant
            0 <= done <= p,
            r@.len() == REPETITIONS * (done as int),
            forall|i: int| 0 <= i < r@.len() ==> #[trigger] r@[i] == 1 + i / (REPETITIONS as int),
        decreases p - done,
    {
        let c = done + 1;
        let mut k: usize = 0;
        while k < REPETITIONS
            invariant
                0 <= k <= REPETITIONS,
                1 <= c <= p,
                c == done + 1,
                r@.len() == REPETITIONS * (done as int) + k,
                forall|i: int| 0 <= i < r@.len() ==> #[trigger] r@[i] == 1 + i / (REPETITIONS as int),
            decreases REPETITIONS - k,
        {
            proof {
                lemma_sweep_index(c as int, k as int);
            }
            r.push(c);
            k = k + 1;
        }
        proof {
            assert(REPETITIONS * (done as int) + REPETITIONS == REPETITIONS * (done as int + 1)) by (nonlinear_arith);
        }
        done = done + 1;
    }
    r
}

/// The sweep over the processing units this machine offers: worker counts
/// from 1 upward, `REPETITIONS` entries each, in emission order.
pub fn sweep_plan() -> (r: Vec<usize>)
    ensures
        REPETITIONS <= r@.len(),
        (r@.len() as int) % (REPETITIONS as int) == 0,
        forall|i: int| 0 <= i < r@.len() ==> #[trigger] r@[i] == 1 + i / (REPETITIONS as int),
{
    let p = available_cpus();
    let r = sweep_worker_counts(p);
    proof {
        lemma_len_multiple(p as int);
    }
    r
}

/// The entry at position `REPETITIONS * (c - 1) + k` of the sweep is the
/// worker count `c`.
proof fn lemma_sweep_index(c: int, k: int)
    requires
        1 <= c,
        0 <= k < REPETITIONS,
    ensures
        (REPETITIONS * (c - 1) + k) / (REPETITIONS as int) == c - 1,
{
    let reps = REPETITIONS as int;
    assert((reps * (c - 1) + k) / reps == c - 1) by (nonlinear_arith)
        requires
            reps == 20,
            0 <= k < reps,
            1 <= c,
    ;
}

/// A sweep of `p` worker counts has a length that is a positive multiple
/// of `REPETITIONS`.
proof fn lemma_len_multiple(p: int)
    requires
        1 <= p,
    ensures
        REPETITIONS <= REPETITIONS * p,
        (REPETITIONS * p) % (REPETITIONS as int) == 0,
{
    let reps = REPETITIONS as int;
    assert(reps <= reps * p && (reps * p) % reps == 0) by (nonlinear_arith)
        requires
            reps == 20,
            1 <= p,
    ;
}

/// The sweep's worker counts are monotonically non-decreasing in emission
/// order: every entry of the sweep is at most any later entry.
pub proof fn lemma_sweep_monotone(r: Seq<usize>, i: int, j: int)
    requires
        forall|k: int| 0 <= k < r.len() ==> #[trigger] r[k] == 1 + k / (REPETITIONS as int),
        0 <= i <= j < r.len(),
    ensures
        r[i] <= r[j],
{
    let reps = REPETITIONS as int;
    assert(i / reps <= j / reps) by (nonlinear_arith)
        requires
            reps == 20,
            0 <= i <= j,
    ;
}

} // verus!
