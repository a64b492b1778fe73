use pi_midpoint::sweep::{sweep_plan, sweep_worker_counts, REPETITIONS};

#[test]
fn sweep_counts_repeat_each_worker_count() {
    let s = sweep_worker_counts(3);
    assert_eq!(s.len(), 3 * REPETITIONS);
    for (i, &c) in s.iter().enumerate() {
        assert_eq!(c, 1 + i / REPETITIONS);
    }
    assert_eq!(&s[0..REPETITIONS], &vec![1; REPETITIONS][..]);
    assert_eq!(&s[REPETITIONS..2 * REPETITIONS], &vec![2; REPETITIONS][..]);
    assert_eq!(&s[2 * REPETITIONS..], &vec![3; REPETITIONS][..]);
}

#[test]
fn sweep_counts_are_monotone() {
    let s = sweep_worker_counts(7);
    for i in 1..s.len() {
        assert!(s[i - 1] <= s[i]);
    }
}

#[test]
fn sweep_single_unit() {
    let s = sweep_worker_counts(1);
    assert_eq!(s, vec![1; REPETITIONS]);
}

#[test]
fn sweep_plan_covers_this_machine() {
    // One run per (worker count, repetition) pair: REPETITIONS entries per
    // worker count from 1 up to the number of processing units, emitted in
    // monotonically non-decreasing order.
    let s = sweep_plan();
    assert!(s.len() >= REPETITIONS);
    assert_eq!(s.len() % REPETITIONS, 0);
    assert_eq!(s[0], 1);
    for (i, &c) in s.iter().enumerate() {
        assert_eq!(c, 1 + i / REPETITIONS);
    }
    for i in 1..s.len() {
        assert!(s[i - 1] <= s[i]);
    }
    assert_eq!(*s.last().unwrap(), s.len() / REPETITIONS);
}
