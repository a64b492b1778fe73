use pi_midpoint::partition::{partition, INTERVALS};

const PI_REFERENCE: f64 = 3.141592653589793238462643;

/// The midpoint-rule estimate the numeric kernel computes: one partial sum
/// per sub-range of the partition, combined in worker order.
fn estimate(total: i64, workers: i64) -> f64 {
    let ranges = partition(total, workers);
    let dx = 1.0 / total as f64;
    let mut sum: f64 = 0.0;
    for sr in &ranges {
        let mut partial: f64 = 0.0;
        for j in sr.start..=sr.end {
            let x = dx * (j as f64 - 0.5);
            partial += 4.0 / (1.0 + x * x);
        }
        sum += partial;
    }
    dx * sum
}

#[test]
fn single_worker_full_run_is_accurate() {
    // The full interval count with one worker. The inclusive range
    // 0..=INTERVALS evaluates one sample more than the plain midpoint
    // rule, so the estimate carries a bias of about 4 * dx on top of the
    // rule's own convergence; the result is pi to about 6 decimal digits
    // and the deviation is almost exactly that extra sample.
    let est = estimate(INTERVALS, 1);
    let dx = 1.0 / INTERVALS as f64;
    let err = (PI_REFERENCE - est).abs();
    assert!(err < 1e-6, "estimate {est} error {err}");
    assert!((est - 3.1415926535).abs() < 1e-6, "estimate {est}");
    // The deviation is the extra inclusive-boundary sample, worth 4 * dx.
    assert!(((PI_REFERENCE - est) + 4.0 * dx).abs() < 1e-9, "estimate {est}");
}

#[test]
fn single_worker_matches_independent_sequential_sum() {
    // workers = 1 must reproduce, bit for bit, a plain sequential
    // midpoint sum over the full inclusive range.
    let total: i64 = 100_000;
    let est = estimate(total, 1);
    let dx = 1.0 / total as f64;
    let mut sum: f64 = 0.0;
    for j in 0..=total {
        let x = dx * (j as f64 - 0.5);
        sum += 4.0 / (1.0 + x * x);
    }
    let sequential = dx * sum;
    assert_eq!(est.to_bits(), sequential.to_bits());
}

#[test]
fn estimate_is_deterministic() {
    // Two runs with identical inputs produce bit-identical estimates.
    let a = estimate(1_000_000, 4);
    let b = estimate(1_000_000, 4);
    assert_eq!(a.to_bits(), b.to_bits());
}

#[test]
fn multi_worker_deviation_is_bounded_by_boundary_bias() {
    // For divisors of the interval count, the estimate deviates from the
    // single-worker estimate only by the workers - 1 double-counted
    // boundary samples, each of which contributes at most dx * 4.
    let total: i64 = 1_000_000;
    let est_1 = estimate(total, 1);
    for workers in [2i64, 4, 5, 8, 10, 16] {
        let est_k = estimate(total, workers);
        let dx = 1.0 / total as f64;
        let bound = (workers - 1) as f64 * 4.0 * dx + 1e-9;
        assert!(
            (est_k - est_1).abs() <= bound,
            "workers {workers}: {est_k} vs {est_1}"
        );
        assert!(est_k != est_1, "workers {workers} should carry the bias");
    }
}

#[test]
fn error_decreases_as_intervals_grow() {
    // Midpoint-rule convergence: for a fixed worker count the absolute
    // error shrinks strictly as the interval count grows.
    let mut last_err = f64::MAX;
    for total in [1_000i64, 10_000, 100_000, 1_000_000] {
        let err = (PI_REFERENCE - estimate(total, 1)).abs();
        assert!(err < last_err, "total {total}: {err} !< {last_err}");
        last_err = err;
    }
}
