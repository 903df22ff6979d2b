//! Parallel numerical workload kernels: how work is split across a fixed pool
//! of workers, and the integer kernels whose results are proved correct.

pub mod partition;
pub mod pool;
pub mod harness;
pub mod mergesort;
pub mod montecarlo;
