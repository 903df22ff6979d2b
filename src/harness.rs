//! Selection of the kernel to run and validation of the run parameters.

use vstd::prelude::*;

verus! {

/// The five benchmark kernels, numbered 1 to 5 on the command line.
#[derive(Clone, Copy, Debug, PartialEq, Eq, Structural)]
pub enum Algorithm {
    SumOfSquares,
    MatrixMultiply,
    MonteCarloPi,
    ParallelMergeSort,
    RecursiveFft,
}

impl Algorithm {
    /// The identifier of the kernel.
    pub open spec fn spec_id(self) -> u32 {
        match self {
            Algorithm::SumOfSquares => 1,
            Algorithm::MatrixMultiply => 2,
            Algorithm::MonteCarloPi => 3,
            Algorithm::ParallelMergeSort => 4,
            Algorithm::RecursiveFft => 5,
        }
    }

    /// The identifier of the kernel.
    pub fn id(&self) -> (r: u32)
        ensures
            r == self.spec_id(),
    {
        match self {
            Algorithm::SumOfSquares => 1,
            Algorithm::MatrixMultiply => 2,
            Algorithm::MonteCarloPi => 3,
            Algorithm::ParallelMergeSort => 4,
            Algorithm::RecursiveFft => 5,
        }
    }

    /// The kernel with identifier `id`, if there is one.
    pub fn from_id(id: u32) -> (r: Option<Algorithm>)
        ensures
            r is Some <==> 1 <= id <= 5,
            r matches Some(a) ==> a.spec_id() == id,
    {
        match id {
            1 => Some(Algorithm::SumOfSquares),
            2 => Some(Algorithm::MatrixMultiply),
            3 => Some(Algorithm::MonteCarloPi),
            4 => Some(Algorithm::ParallelMergeSort),
            5 => Some(Algorithm::RecursiveFft),
            _ => None,
        }
    }
}

/// A run parameter out of its allowed range.
#[derive(Clone, Copy, Debug, PartialEq, Eq, Structural)]
pub enum ArgError {
    /// The algorithm identifier is not in `1..=5`.
    Algorithm,
    /// The thread count is zero.
    Threads,
    /// The run count is zero.
    Runs,
    /// The input size is zero.
    Size,
}

impl ArgError {
    /// A human-readable description of the error.
    pub fn message(&self) -> (r: &'static str)
        ensures
            *self == ArgError::Algorithm ==> r@ == "--alg must be 1..5"@,
            *self == ArgError::Threads ==> r@ == "--threads must be >= 1"@,
            *self == ArgError::Runs ==> r@ == "--runs must be >= 1"@,
            *self == ArgError::Size ==> r@ == "--size must be >= 1"@,
    {
        match self {
            ArgError::Algorithm => "--alg must be 1..5",
            ArgError::Threads => "--threads must be >= 1",
            ArgError::Runs => "--runs must be >= 1",
            ArgError::Size => "--size must be >= 1",
        }
    }
}

/// Checks the run parameters in the order algorithm, threads, runs, size,
/// and reports the first one out of range; otherwise returns the selected
/// kernel.
pub fn validate_args(alg: u32, threads: u32, runs: u32, size: u64) -> (r: Result<Algorithm, ArgError>)
    ensures
        !(1 <= alg <= 5) ==> r == Err::<Algorithm, ArgError>(ArgError::Algorithm),
        1 <= alg <= 5 && threads == 0 ==> r == Err::<Algorithm, ArgError>(ArgError::Threads),
        1 <= alg <= 5 && threads >= 1 && runs == 0 ==> r == Err::<Algorithm, ArgError>(ArgError::Runs),
        1 <= alg <= 5 && threads >= 1 && runs >= 1 && size == 0 ==> r == Err::<Algorithm, ArgError>(
            ArgError::Size,
        ),
        r matches Ok(a) ==> a.spec_id() == alg && 1 <= alg <= 5 && threads >= 1 && runs >= 1 && size >= 1,
        1 <= alg <= 5 && threads >= 1 && runs >= 1 && size >= 1 ==> r is Ok,
{
    let selected = Algorithm::from_id(alg);
    match selected {
        None => Err(ArgError::Algorithm),
        Some(a) => {
            if threads == 0 {
                Err(ArgError::Threads)
            } else if runs == 0 {
                Err(ArgError::Runs)
            } else if size == 0 {
                Err(ArgError::Size)
            } else {
                Ok(a)
            }
        },
    }
}

/// `n` is a power of two: 1, or an even number whose half is one.
pub open spec fn power_of_two(n: nat) -> bool
    decreases n,
{
    if n == 0 {
        false
    } else if n == 1 {
        true
    } else {
        n % 2 == 0 && power_of_two(n / 2)
    }
}

proof fn lemma_power_of_two_bits(n: u64)
    requires
        n != 0,
    ensures
        (n & ((n - 1) as u64) == 0) == power_of_two(n as nat),
    decreases n,
{
    assert(n & 1 == n % 2) by (bit_vector);
    if n == 1 {
        assert(1u64 & 0u64 == 0) by (bit_vector);
    } else if n & 1 == 1 {
        assert(n > 1 && n & 1 == 1 ==> n & ((n - 1) as u64) != 0) by (bit_vector);
    } else {
        let h: u64 = n >> 1;
        assert(n >> 1 == n / 2) by (bit_vector);
        assert(n > 1 && n & 1 == 0 ==> (n >> 1) != 0) by (bit_vector);
        assert(n > 1 && n & 1 == 0 ==> ((n & ((n - 1) as u64) == 0) == ((n >> 1) & (((n >> 1) - 1) as u64) == 0)))
            by (bit_vector);
        lemma_power_of_two_bits(h);
    }
}

/// Whether `n` is a power of two, the lengths the recursive FFT accepts.
pub fn is_power_of_two(n: u64) -> (r: bool)
    ensures
        r == power_of_two(n as nat),
{
    if n == 0 {
        false
    } else {
        proof {
            lemma_power_of_two_bits(n);
        }
        n & (n - 1) == 0
    }
}

} // verus!
