//! Decomposition of Monte Carlo sampling: each worker gets a contiguous chunk
//! of the sample indices and a generator seed derived from its index alone,
//! so a fixed worker count always draws the same samples.

use crate::partition::{chunk_end, chunk_span, chunk_start, Span};
use vstd::prelude::*;

verus! {

/// The constant every worker seed is derived from.
pub const SEED_BASE: u64 = 0x9E37_79B9_7F4A_7C15;

/// One worker's share of the sampling: the sample indices it draws and the
/// seed of its generator.
#[derive(Clone, Copy, Debug, PartialEq, Eq, Structural)]
pub struct SampleTask {
    pub span: Span,
    pub seed: u64,
}

/// Seed of worker `tid`: the fixed constant XORed with `tid + 1`.
pub open spec fn seed_of(tid: nat) -> u64 {
    SEED_BASE ^ ((tid + 1) as u64)
}

/// The generator seed of worker `tid`.
pub fn worker_seed(tid: u64) -> (r: u64)
    requires
        tid < u64::MAX,
    ensures
        r == seed_of(tid as nat),
{
    SEED_BASE ^ (tid + 1)
}

/// The task of every worker when `size` samples are split among `threads`
/// workers: worker `t` draws the samples of its chunk with seed
/// `seed_of(t)`.
pub fn sample_plan(size: u64, threads: usize) -> (r: Vec<SampleTask>)
    requires
        threads >= 1,
    ensures
        r@.len() == threads,
        forall|t: int|
            0 <= t < threads ==> {
                &&& (#[trigger] r@[t]).span.start == chunk_start(size as nat, threads as nat, t as nat)
                &&& r@[t].span.end == chunk_end(size as nat, threads as nat, t as nat)
                &&& r@[t].seed == seed_of(t as nat)
            },
{
    let mut plan: Vec<SampleTask> = Vec::new();
    let mut t: usize = 0;
    while t < threads
        invariant
            t <= threads,
            threads >= 1,
            plan@.len() == t,
            forall|u: int|
                0 <= u < t ==> {
                    &&& (#[trigger] plan@[u]).span.start == chunk_start(size as nat, threads as nat, u as nat)
                    &&& plan@[u].span.end == chunk_end(size as nat, threads as nat, u as nat)
                    &&& plan@[u].seed == seed_of(u as nat)
                },
        decreases threads - t,
    {
        let span = chunk_span(size, threads, t);
        let seed = worker_seed(t as u64);
        plan.push(SampleTask { span, seed });
        t = t + 1;
    }
    plan
}

} // verus!
