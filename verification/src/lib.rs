//! Midpoint-rule partitioning for a parallel estimate of pi.
//!
//! The numeric kernel integrates 4/(1+x^2) over [0,1] with the midpoint
//! rule, splitting a fixed number of sample intervals across a number of
//! workers. This crate holds the verified integer logic of that kernel:
//! how the interval range is partitioned into per-worker sub-ranges, how
//! often each sample index is evaluated under the partition's inclusive
//! boundaries, and the schedule of the benchmark sweep over worker counts.

pub mod coverage;
pub mod partition;
pub mod sweep;
