//! The worker pool a kernel runs on: created fresh for each invocation with a
//! fixed number of workers, and joined when it is dropped.

use vstd::prelude::*;

verus! {

#[verifier::external_type_specification]
#[verifier::external_body]
pub struct ExThreadPool(rayon::ThreadPool);

#[verifier::external_type_specification]
#[verifier::external_body]
pub struct ExThreadPoolBuildError(rayon::ThreadPoolBuildError);

/// Why a kernel could not run.
#[derive(Clone, Copy, Debug, PartialEq, Eq, Structural)]
pub enum KernelError {
    /// The host could not supply a pool with the requested worker count.
    ResourceExhaustion,
}

impl KernelError {
    /// A human-readable description of the error.
    pub fn message(&self) -> (r: &'static str)
        ensures
            r@ == "failed to build the worker pool"@,
    {
        "failed to build the worker pool"
    }
}

/// Relies on rayon's `ThreadPoolBuilder::new().num_threads(n).build()`: a
/// new pool, or the error met while starting its workers. rayon caps the
/// worker count at its own maximum (`rayon::max_num_threads()`).
#[verifier::external_body]
fn build_thread_pool(threads: usize) -> Result<rayon::ThreadPool, rayon::ThreadPoolBuildError> {
    rayon::ThreadPoolBuilder::new().num_threads(threads).build()
}

/// A fresh pool of `threads` workers, or of rayon's maximum worker count
/// when `threads` exceeds it. A failure to start the workers is reported as
/// `ResourceExhaustion`; it is not retried.
pub fn new_pool(threads: usize) -> (r: Result<rayon::ThreadPool, KernelError>)
    requires
        threads >= 1,
    ensures
        r is Err ==> r == Err::<rayon::ThreadPool, KernelError>(KernelError::ResourceExhaustion),
{
    match build_thread_pool(threads) {
        Ok(pool) => Ok(pool),
        Err(_) => Err(KernelError::ResourceExhaustion),
    }
}

} // verus!
