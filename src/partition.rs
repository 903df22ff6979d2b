//! Static partitions of an index range `[0, size)` among a fixed number of
//! workers: each worker owns one contiguous half-open range, and the ranges
//! neither overlap nor leave a gap.

use vstd::prelude::*;

verus! {

/// A half-open index range `[start, end)`; empty when `end <= start`.
#[derive(Clone, Copy, Debug, PartialEq, Eq, Structural)]
pub struct Span {
    pub start: u64,
    pub end: u64,
}

impl Span {
    /// Number of indices in the range.
    pub fn len(&self) -> (r: u64)
        ensures
            r == if self.end > self.start { self.end - self.start } else { 0 },
    {
        if self.end > self.start {
            self.end - self.start
        } else {
            0
        }
    }
}

/// Length of the chunk each sampling worker gets: `size / threads`, but at
/// least one.
pub open spec fn chunk_len(size: nat, threads: nat) -> nat {
    if size / threads >= 1 {
        size / threads
    } else {
        1
    }
}

/// First index of worker `tid` in the chunked split of `[0, size)`.
pub open spec fn chunk_start(size: nat, threads: nat, tid: nat) -> int {
    (tid * chunk_len(size, threads)) as int
}

/// End of worker `tid`'s range in the chunked split: the last worker runs to
/// `size` and absorbs the remainder, the others stop at the next chunk
/// boundary, clipped to `size`.
pub open spec fn chunk_end(size: nat, threads: nat, tid: nat) -> int {
    if tid == threads - 1 {
        size as int
    } else if (tid + 1) * chunk_len(size, threads) <= size {
        ((tid + 1) * chunk_len(size, threads)) as int
    } else {
        size as int
    }
}

/// Whether index `i` falls to worker `tid` in the chunked split.
pub open spec fn in_chunk(size: nat, threads: nat, tid: nat, i: int) -> bool {
    chunk_start(size, threads, tid) <= i < chunk_end(size, threads, tid)
}

/// Whether some worker of the chunked split owns index `i`.
pub open spec fn chunk_owned(size: nat, threads: nat, i: int) -> bool {
    exists|tid: nat| tid < threads && #[trigger] in_chunk(size, threads, tid, i)
}

/// First row of worker `w` in the balanced row split of `[0, n)`.
pub open spec fn row_start(n: nat, threads: nat, w: nat) -> int {
    (w * n / threads) as int
}

/// Whether row `i` falls to worker `w` in the balanced row split.
pub open spec fn in_rows(n: nat, threads: nat, w: nat, i: int) -> bool {
    row_start(n, threads, w) <= i < row_start(n, threads, w + 1)
}

proof fn lemma_chunk_bounds(size: nat, threads: nat, tid: nat)
    requires
        threads >= 1,
        tid < threads,
    ensures
        0 <= chunk_start(size, threads, tid),
        (tid + 1) * chunk_len(size, threads) <= if size >= threads { size } else { threads },
        tid * chunk_len(size, threads) <= if size >= threads { size } else { threads },
{
    let c = chunk_len(size, threads);
    if size / threads >= 1 {
        vstd::arithmetic::div_mod::lemma_fundamental_div_mod(size as int, threads as int);
        assert((tid + 1) * c <= threads * c) by (nonlinear_arith)
            requires
                tid + 1 <= threads,
                c >= 0,
        ;
        assert(threads * c <= size) by (nonlinear_arith)
            requires
                c == size / threads,
                threads >= 1,
                size == threads * (size / threads) + size % threads,
                size % threads >= 0,
        ;
        assert(size >= threads) by (nonlinear_arith)
            requires
                size / threads >= 1,
                threads >= 1,
                size == threads * (size / threads) + size % threads,
                size % threads >= 0,
        ;
    } else {
        vstd::arithmetic::div_mod::lemma_fundamental_div_mod(size as int, threads as int);
    }
    assert(tid * c <= (tid + 1) * c) by (nonlinear_arith)
        requires
            c >= 0,
    ;
    assert(0 <= tid * c) by (nonlinear_arith)
        requires
            c >= 0,
    ;
}

/// Worker `tid`'s range in the chunked split of `[0, size)` among `threads`
/// workers.
pub fn chunk_span(size: u64, threads: usize, tid: usize) -> (r: Span)
    requires
        threads >= 1,
        tid < threads,
    ensures
        r.start == chunk_start(size as nat, threads as nat, tid as nat),
        r.end == chunk_end(size as nat, threads as nat, tid as nat),
{
    proof {
        lemma_chunk_bounds(size as nat, threads as nat, tid as nat);
    }
    let q = size / (threads as u64);
    let chunk: u64 = if q >= 1 { q } else { 1 };
    let t = tid as u64;
    let start = t * chunk;
    let end = if tid == threads - 1 {
        size
    } else {
        let next = (t + 1) * chunk;
        if next <= size {
            next
        } else {
            size
        }
    };
    Span { start, end }
}


proof fn lemma_row_start_bounds(n: nat, threads: nat, w: nat)
    requires
        threads >= 1,
        w <= threads,
    ensures
        0 <= row_start(n, threads, w) <= n,
        w * n <= threads * n,
{
    assert(w * n <= threads * n) by (nonlinear_arith)
        requires
            w <= threads,
    ;
    vstd::arithmetic::div_mod::lemma_div_is_ordered((w * n) as int, (threads * n) as int, threads as int);
    vstd::arithmetic::div_mod::lemma_div_multiples_vanish(n as int, threads as int);
    assert(threads * n == n * threads) by (nonlinear_arith);
    assert(0 <= w * n) by (nonlinear_arith);
}

proof fn lemma_row_start_monotone(n: nat, threads: nat, a: nat, b: nat)
    requires
        threads >= 1,
        a <= b,
    ensures
        row_start(n, threads, a) <= row_start(n, threads, b),
{
    assert(a * n <= b * n) by (nonlinear_arith)
        requires
            a <= b,
    ;
    vstd::arithmetic::div_mod::lemma_div_is_ordered((a * n) as int, (b * n) as int, threads as int);
}

/// Whether some worker of the balanced row split owns row `i`.
pub open spec fn rows_owned(n: nat, threads: nat, i: int) -> bool {
    exists|w: nat| w < threads && #[trigger] in_rows(n, threads, w, i)
}

/// Worker `w`'s rows in the balanced row split of `[0, n)` among `threads`
/// workers: rows `w * n / threads` up to `(w + 1) * n / threads`.
pub fn row_span(n: u64, threads: usize, w: usize) -> (r: Span)
    requires
        threads >= 1,
        w < threads,
    ensures
        r.start == row_start(n as nat, threads as nat, w as nat),
        r.end == row_start(n as nat, threads as nat, (w + 1) as nat),
{
    proof {
        lemma_row_start_bounds(n as nat, threads as nat, w as nat);
        lemma_row_start_bounds(n as nat, threads as nat, (w + 1) as nat);
        assert((w + 1) * n <= 0x1_0000_0000_0000_0000 * 0xffff_ffff_ffff_ffff) by (nonlinear_arith)
            requires
                w + 1 <= 0x1_0000_0000_0000_0000,
                n <= 0xffff_ffff_ffff_ffff,
        ;
        assert(w * n <= (w + 1) * n) by (nonlinear_arith);
    }
    let t = threads as u128;
    let wide = n as u128;
    let lo = (w as u128) * wide / t;
    let hi = ((w as u128) + 1) * wide / t;
    Span { start: lo as u64, end: hi as u64 }
}

/// The rows of every worker when `n` rows are split among `threads` workers.
pub fn row_plan(n: u64, threads: usize) -> (r: Vec<Span>)
    requires
        threads >= 1,
    ensures
        r@.len() == threads,
        forall|w: int|
            0 <= w < threads ==> {
                &&& (#[trigger] r@[w]).start == row_start(n as nat, threads as nat, w as nat)
                &&& r@[w].end == row_start(n as nat, threads as nat, (w + 1) as nat)
            },
{
    let mut plan: Vec<Span> = Vec::new();
    let mut w: usize = 0;
    while w < threads
        invariant
            w <= threads,
            threads >= 1,
            plan@.len() == w,
            forall|u: int|
                0 <= u < w ==> {
                    &&& (#[trigger] plan@[u]).start == row_start(n as nat, threads as nat, u as nat)
                    &&& plan@[u].end == row_start(n as nat, threads as nat, (u + 1) as nat)
                },
        decreases threads - w,
    {
        plan.push(row_span(n, threads, w));
        w = w + 1;
    }
    plan
}

/// The chunked split of `[0, size)` used for sampling is a partition: every
/// index in `[0, size)` belongs to some worker, no index outside it belongs
/// to any, and no index belongs to two workers.
pub proof fn chunk_split_is_partition(size: nat, threads: nat)
    requires
        threads >= 1,
    ensures
        forall|i: int| 0 <= i < size <==> #[trigger] chunk_owned(size, threads, i),
        forall|t1: nat, t2: nat, i: int|
            t1 < threads && t2 < threads && #[trigger] in_chunk(size, threads, t1, i)
                && #[trigger] in_chunk(size, threads, t2, i) ==> t1 == t2,
{
    let c = chunk_len(size, threads);
    assert forall|i: int| 0 <= i < size implies #[trigger] chunk_owned(size, threads, i) by {
        let q = i / (c as int);
        vstd::arithmetic::div_mod::lemma_fundamental_div_mod(i, c as int);
        assert(0 <= q) by (nonlinear_arith)
            requires
                q == i / (c as int),
                i >= 0,
                c >= 1,
        ;
        if q < threads - 1 {
            let tid = q as nat;
            assert(tid * c <= i && i < (tid + 1) * c) by (nonlinear_arith)
                requires
                    i == c * q + i % (c as int),
                    0 <= i % (c as int) < c,
                    tid == q,
            ;
            assert(in_chunk(size, threads, tid, i));
        } else {
            let tid = (threads - 1) as nat;
            assert(tid * c <= i) by (nonlinear_arith)
                requires
                    i == c * q + i % (c as int),
                    0 <= i % (c as int),
                    tid <= q,
                    c >= 1,
            ;
            assert(in_chunk(size, threads, tid, i));
        }
    }
    assert forall|i: int| #[trigger] chunk_owned(size, threads, i) implies 0 <= i < size by {
        let tid = choose|tid: nat| tid < threads && #[trigger] in_chunk(size, threads, tid, i);
        lemma_chunk_bounds(size, threads, tid);
    }
    assert forall|t1: nat, t2: nat, i: int|
        t1 < threads && t2 < threads && #[trigger] in_chunk(size, threads, t1, i)
            && #[trigger] in_chunk(size, threads, t2, i) implies t1 == t2 by {
        if t1 < t2 {
            assert((t1 + 1) * c <= t2 * c) by (nonlinear_arith)
                requires
                    t1 + 1 <= t2,
            ;
        } else if t2 < t1 {
            assert((t2 + 1) * c <= t1 * c) by (nonlinear_arith)
                requires
                    t2 + 1 <= t1,
            ;
        }
    }
}

proof fn lemma_row_owner(n: nat, threads: nat, i: int, k: nat)
    requires
        threads >= 1,
        k < threads,
        row_start(n, threads, k) <= i < n,
    ensures
        exists|w: nat| w < threads && #[trigger] in_rows(n, threads, w, i),
    decreases threads - k,
{
    lemma_row_start_bounds(n, threads, threads);
    vstd::arithmetic::div_mod::lemma_div_multiples_vanish(n as int, threads as int);
    assert(threads * n == n * threads) by (nonlinear_arith);
    if i < row_start(n, threads, k + 1) {
        assert(in_rows(n, threads, k, i));
    } else {
        lemma_row_owner(n, threads, i, k + 1);
    }
}

/// The balanced row split of `[0, n)` used for matrix rows is a partition:
/// every row in `[0, n)` belongs to some worker, no row outside it belongs to
/// any, and no row belongs to two workers.
pub proof fn row_split_is_partition(n: nat, threads: nat)
    requires
        threads >= 1,
    ensures
        forall|i: int| 0 <= i < n <==> #[trigger] rows_owned(n, threads, i),
        forall|w1: nat, w2: nat, i: int|
            w1 < threads && w2 < threads && #[trigger] in_rows(n, threads, w1, i)
                && #[trigger] in_rows(n, threads, w2, i) ==> w1 == w2,
{
    assert forall|i: int| 0 <= i < n implies #[trigger] rows_owned(n, threads, i) by {
        lemma_row_start_bounds(n, threads, 0);
        lemma_row_owner(n, threads, i, 0);
    }
    assert forall|i: int| #[trigger] rows_owned(n, threads, i) implies 0 <= i < n by {
        let w = choose|w: nat| w < threads && #[trigger] in_rows(n, threads, w, i);
        lemma_row_start_bounds(n, threads, w);
        lemma_row_start_bounds(n, threads, w + 1);
    }
    assert forall|w1: nat, w2: nat, i: int|
        w1 < threads && w2 < threads && #[trigger] in_rows(n, threads, w1, i)
            && #[trigger] in_rows(n, threads, w2, i) implies w1 == w2 by {
        if w1 < w2 {
            lemma_row_start_monotone(n, threads, w1 + 1, w2);
        } else if w2 < w1 {
            lemma_row_start_monotone(n, threads, w2 + 1, w1);
        }
    }
}

} // verus!
