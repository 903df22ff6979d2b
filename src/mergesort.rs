//! Divide-and-conquer merge sort with a sequential cutoff. The two halves of
//! a large slice are sorted in parallel on disjoint sub-slices, then merged
//! through an auxiliary buffer that is allocated once per top-level call and
//! split alongside the input.

use crate::pool::{new_pool, KernelError};
use rand::Rng;
use vstd::prelude::*;

verus! {

#[verifier::external_type_specification]
#[verifier::external_body]
pub struct ExSmallRng(rand::rngs::SmallRng);

/// Slices at most this long are sorted sequentially.
pub const SEQUENTIAL_CUTOFF: usize = 32768;

/// `s` is in non-decreasing order.
pub open spec fn sorted(s: Seq<i32>) -> bool {
    forall|i: int, j: int| 0 <= i <= j < s.len() ==> s[i] <= s[j]
}

/// The two-pointer merge of `l` and `r`: repeatedly take the smaller head,
/// the head of `l` on ties, until one side runs out, then the rest of the
/// other.
pub open spec fn merged(l: Seq<i32>, r: Seq<i32>) -> Seq<i32>
    decreases l.len() + r.len(),
{
    if l.len() == 0 {
        r
    } else if r.len() == 0 {
        l
    } else if l[0] <= r[0] {
        seq![l[0]] + merged(l.drop_first(), r)
    } else {
        seq![r[0]] + merged(l, r.drop_first())
    }
}

/// Merges `left` and `right` into the first `left.len() + right.len()` cells
/// of `out` by the two-pointer merge, taking from `left` first on ties. The
/// rest of `out` is left as it was. The merged cells hold the elements of
/// both sides, and are sorted when both sides are.
pub fn merge_into(left: &[i32], right: &[i32], out: &mut [i32])
    requires
        left@.len() + right@.len() <= old(out)@.len(),
    ensures
        final(out)@.len() == old(out)@.len(),
        final(out)@.subrange(0, (left@.len() + right@.len()) as int) == merged(left@, right@),
        final(out)@.subrange(0, (left@.len() + right@.len()) as int).to_multiset() == (left@
            + right@).to_multiset(),
        sorted(left@) && sorted(right@) ==> sorted(
            final(out)@.subrange(0, (left@.len() + right@.len()) as int),
        ),
        right@.len() == 0 ==> final(out)@.subrange(0, left@.len() as int) == left@,
        left@.len() == 0 ==> final(out)@.subrange(0, right@.len() as int) == right@,
        final(out)@.subrange((left@.len() + right@.len()) as int, old(out)@.len() as int) == old(
            out,
        )@.subrange((left@.len() + right@.len()) as int, old(out)@.len() as int),
{
    broadcast use vstd::seq_lib::group_to_multiset_ensures;

    let ghost out0 = out@;
    let mut i: usize = 0;
    let mut j: usize = 0;
    let mut k: usize = 0;
    proof {
        assert(left@.subrange(0, 0) =~= Seq::<i32>::empty());
        assert(right@.subrange(0, 0) =~= Seq::<i32>::empty());
        assert(out@.subrange(0, 0) =~= Seq::<i32>::empty());
        assert(left@.subrange(0, left@.len() as int) =~= left@);
        assert(right@.subrange(0, right@.len() as int) =~= right@);
        assert(Seq::<i32>::empty() + merged(left@, right@) =~= merged(left@, right@));
    }
    while i < left.len() || j < right.len()
        invariant
            i <= left@.len(),
            j <= right@.len(),
            k == i + j,
            left@.len() + right@.len() <= out0.len(),
            out@.len() == out0.len(),
            forall|p: int| k <= p < out0.len() ==> out@[p] == out0[p],
            merged(left@, right@) == out@.subrange(0, k as int) + merged(
                left@.subrange(i as int, left@.len() as int),
                right@.subrange(j as int, right@.len() as int),
            ),
            sorted(left@) && sorted(right@) ==> sorted(out@.subrange(0, k as int)),
            out@.subrange(0, k as int).to_multiset() == left@.subrange(0, i as int).to_multiset().add(
                right@.subrange(0, j as int).to_multiset(),
            ),
            sorted(left@) && sorted(right@) && k > 0 && i < left@.len() ==> out@[k - 1] <= left@[i as int],
            sorted(left@) && sorted(right@) && k > 0 && j < right@.len() ==> out@[k - 1] <= right@[j as int],
        decreases left@.len() + right@.len() - k,
    {
        let ghost prev = out@;
        let ghost ls = left@.subrange(i as int, left@.len() as int);
        let ghost rs = right@.subrange(j as int, right@.len() as int);
        let ghost ml = left@.subrange(0, i as int).to_multiset();
        let ghost mr = right@.subrange(0, j as int).to_multiset();
        let take_left = j >= right.len() || (i < left.len() && left[i] <= right[j]);
        if take_left {
            out[k] = left[i];
            proof {
                assert(left@.subrange(0, i + 1) =~= left@.subrange(0, i as int).push(left@[i as int]));
                vstd::seq_lib::to_multiset_build(left@.subrange(0, i as int), left@[i as int]);
                assert(ml.insert(left@[i as int]).add(mr) =~= ml.add(mr).insert(left@[i as int]));
                assert(out@.subrange(0, k + 1) =~= prev.subrange(0, k as int).push(left@[i as int]));
                vstd::seq_lib::to_multiset_build(prev.subrange(0, k as int), left@[i as int]);
                assert(out@.subrange(0, k + 1).to_multiset() == ml.add(mr).insert(left@[i as int]));
            }
            proof {
                let ls1 = left@.subrange(i + 1, left@.len() as int);
                assert(ls.drop_first() =~= ls1);
                if rs.len() == 0 {
                    assert(merged(ls1, rs) == ls1);
                    assert(ls =~= seq![ls[0]] + ls1);
                }
                assert(merged(ls, rs) == seq![left@[i as int]] + merged(ls1, rs));
                assert(out@.subrange(0, k + 1) =~= prev.subrange(0, k as int) + seq![left@[i as int]]);
                assert(prev.subrange(0, k as int) + merged(ls, rs) =~= out@.subrange(0, k + 1) + merged(ls1, rs));
            }
            i = i + 1;
        } else {
            out[k] = right[j];
            proof {
                assert(right@.subrange(0, j + 1) =~= right@.subrange(0, j as int).push(right@[j as int]));
                vstd::seq_lib::to_multiset_build(right@.subrange(0, j as int), right@[j as int]);
                assert(ml.add(mr.insert(right@[j as int])) =~= ml.add(mr).insert(right@[j as int]));
                assert(out@.subrange(0, k + 1) =~= prev.subrange(0, k as int).push(right@[j as int]));
                vstd::seq_lib::to_multiset_build(prev.subrange(0, k as int), right@[j as int]);
                assert(out@.subrange(0, k + 1).to_multiset() == ml.add(mr).insert(right@[j as int]));
            }
            proof {
                let rs1 = right@.subrange(j + 1, right@.len() as int);
                assert(rs.drop_first() =~= rs1);
                if ls.len() == 0 {
                    assert(merged(ls, rs1) == rs1);
                    assert(rs =~= seq![rs[0]] + rs1);
                }
                assert(merged(ls, rs) == seq![right@[j as int]] + merged(ls, rs1));
                assert(out@.subrange(0, k + 1) =~= prev.subrange(0, k as int) + seq![right@[j as int]]);
                assert(prev.subrange(0, k as int) + merged(ls, rs) =~= out@.subrange(0, k + 1) + merged(ls, rs1));
            }
            j = j + 1;
        }
        proof {
            let x = out@[k as int];
            assert(out@.subrange(0, k + 1) =~= prev.subrange(0, k as int).push(x));
            let s = out@.subrange(0, k + 1);
            if sorted(left@) && sorted(right@) {
                assert forall|p: int, q: int| 0 <= p <= q < k + 1 implies #[trigger] s[p] <= #[trigger] s[q] by {
                    if q == k && p < k {
                        assert(prev.subrange(0, k as int)[p] <= prev.subrange(0, k as int)[k - 1]);
                    }
                }
            }
        }
        k = k + 1;
    }
    proof {
        let n = (left@.len() + right@.len()) as int;
        assert(left@.subrange(0, i as int) =~= left@);
        assert(left@.subrange(i as int, left@.len() as int) =~= Seq::<i32>::empty());
        assert(right@.subrange(j as int, right@.len() as int) =~= Seq::<i32>::empty());
        assert(out@.subrange(0, n) =~= out@.subrange(0, k as int) + Seq::<i32>::empty());
        assert(right@.subrange(0, j as int) =~= right@);
        vstd::seq_lib::lemma_multiset_commutative(left@, right@);
        assert(out@.subrange(n, out0.len() as int) =~= out0.subrange(n, out0.len() as int));
    }
}


/// `after` is `before` in non-decreasing order: sorted, and holding the same
/// elements the same number of times.
pub open spec fn sorts(before: Seq<i32>, after: Seq<i32>) -> bool {
    &&& after.len() == before.len()
    &&& sorted(after)
    &&& after.to_multiset() == before.to_multiset()
}

/// One call of `mergesort_rec` on slice `a0` with buffer `t0` and cutoff
/// `threshold` ended with `a1` and `t1`: the slice is sorted, the buffer keeps
/// its length and every cell past the slice's length, and it is not touched
/// at all when the slice is sorted sequentially.
pub open spec fn sorts_with_buffer(a0: Seq<i32>, a1: Seq<i32>, t0: Seq<i32>, t1: Seq<i32>, threshold: usize) -> bool {
    &&& sorts(a0, a1)
    &&& t1.len() == t0.len()
    &&& t1.subrange(a0.len() as int, t0.len() as int) == t0.subrange(a0.len() as int, t0.len() as int)
    &&& (a0.len() <= 1 || a0.len() <= threshold) ==> t1 == t0
}

proof fn lemma_sorted_unique(a: Seq<i32>, b: Seq<i32>)
    requires
        sorted(a),
        sorted(b),
        a.to_multiset() == b.to_multiset(),
    ensures
        a == b,
    decreases a.len(),
{
    broadcast use vstd::seq_lib::group_to_multiset_ensures;

    vstd::seq_lib::to_multiset_len(a);
    vstd::seq_lib::to_multiset_len(b);
    if a.len() == 0 {
        assert(b.len() == 0);
        assert(a =~= b);
    } else {
        assert(b.len() == a.len());
        assert(a.contains(b[0]) && b.contains(a[0])) by {
            assert(b.to_multiset().count(b[0]) > 0);
            assert(a.to_multiset().count(a[0]) > 0);
        }
        let i = choose|i: int| 0 <= i < a.len() && a[i] == b[0];
        let j = choose|j: int| 0 <= j < b.len() && b[j] == a[0];
        assert(a[0] <= a[i]);
        assert(b[0] <= b[j]);
        assert(a[0] == b[0]);
        assert(a.remove(0) =~= a.drop_first());
        assert(b.remove(0) =~= b.drop_first());
        assert(a.remove(0).to_multiset() == a.to_multiset().remove(a[0]));
        assert(b.remove(0).to_multiset() == b.to_multiset().remove(b[0]));
        lemma_sorted_unique(a.drop_first(), b.drop_first());
        assert(a =~= seq![a[0]] + a.drop_first());
        assert(b =~= seq![b[0]] + b.drop_first());
    }
}

/// Sorting leaves nothing to choose: two sorts of the same input, such as
/// runs of `merge_sort_parallel` with different worker counts, yield the
/// same sequence.
pub proof fn sort_outcome_is_unique(input: Seq<i32>, r1: Seq<i32>, r2: Seq<i32>)
    requires
        sorts(input, r1),
        sorts(input, r2),
    ensures
        r1 == r2,
{
    lemma_sorted_unique(r1, r2);
}

/// Relies on `slice::sort_unstable`: the slice ends in ascending order and
/// holds the same elements.
#[verifier::external_body]
fn sort_sequential(a: &mut [i32])
    ensures
        sorts(old(a)@, final(a)@),
{
    a.sort_unstable();
}

/// Relies on `rayon::join`: both closures have run to completion, possibly in
/// parallel, when it returns. Each sorts its own half with `mergesort_rec`.
#[verifier::external_body]
fn sort_halves(
    left: &mut [i32],
    tmp_left: &mut [i32],
    right: &mut [i32],
    tmp_right: &mut [i32],
    threshold: usize,
)
    requires
        old(tmp_left)@.len() >= old(left)@.len(),
        old(tmp_right)@.len() >= old(right)@.len(),
    ensures
        sorts_with_buffer(old(left)@, final(left)@, old(tmp_left)@, final(tmp_left)@, threshold),
        sorts_with_buffer(old(right)@, final(right)@, old(tmp_right)@, final(tmp_right)@, threshold),
{
    rayon::join(
        || mergesort_rec(left, tmp_left, threshold),
        || mergesort_rec(right, tmp_right, threshold),
    );
}

/// Sorts `a` in place. Slices of at most `threshold` elements are sorted
/// sequentially; longer ones are bisected, both halves sorted in parallel,
/// merged into the matching prefix of `tmp`, and copied back. Called outside
/// a pool, the halves run on rayon's global pool, which panics if that pool
/// cannot be started.
pub fn mergesort_rec(a: &mut [i32], tmp: &mut [i32], threshold: usize)
    requires
        old(tmp)@.len() >= old(a)@.len(),
    ensures
        sorts_with_buffer(old(a)@, final(a)@, old(tmp)@, final(tmp)@, threshold),
{
    let n = a.len();
    if n <= 1 {
        return;
    }
    if n <= threshold {
        sort_sequential(a);
        return;
    }
    let ghost a0 = a@;
    let ghost t0 = tmp@;
    let mid = n / 2;
    let (left, right) = a.split_at_mut(mid);
    let (tmp_left, tmp_right) = tmp.split_at_mut(mid);
    let ghost tr0 = tmp_right@;
    sort_halves(left, tmp_left, right, tmp_right, threshold);
    let ghost tl = tmp_left@;
    let ghost tr = tmp_right@;
    let ghost t_halves = tmp@;
    proof {
        assert(t_halves == tl + tr);
        assert(tr0 =~= t0.subrange(mid as int, t0.len() as int));
        assert forall|p: int| n <= p < t0.len() implies t_halves[p] == t0[p] by {
            assert(tr.subrange((n - mid) as int, tr0.len() as int)[p - n] == tr0.subrange(
                (n - mid) as int,
                tr0.len() as int,
            )[p - n]);
        }
        assert(t_halves.subrange(n as int, t0.len() as int) =~= t0.subrange(n as int, t0.len() as int));
    }
    merge_into(left, right, tmp);
    let ghost merged = tmp@;
    proof {
        assert(merged.subrange(n as int, t0.len() as int) =~= t0.subrange(n as int, t0.len() as int));
        assert(a0 =~= a0.subrange(0, mid as int) + a0.subrange(mid as int, n as int));
        vstd::seq_lib::lemma_multiset_commutative(a0.subrange(0, mid as int), a0.subrange(mid as int, n as int));
        vstd::seq_lib::lemma_multiset_commutative(left@, right@);
    }
    let mut p: usize = 0;
    while p < n
        invariant
            p <= n,
            a@.len() == n,
            n <= merged.len(),
            tmp@ == merged,
            forall|q: int| 0 <= q < p ==> a@[q] == merged[q],
        decreases n - p,
    {
        a[p] = tmp[p];
        p = p + 1;
    }
    proof {
        assert(a@ =~= merged.subrange(0, n as int));
    }
}

/// Sorts `arr` on `pool` when there is one, using an auxiliary buffer of the
/// same length allocated once. Without a pool, `arr` is left as it was and
/// the error is `ResourceExhaustion`.
pub fn sort_on_pool(pool: Result<rayon::ThreadPool, KernelError>, arr: &mut [i32]) -> (r: Result<(), KernelError>)
    ensures
        pool is Ok ==> r is Ok && sorts(old(arr)@, final(arr)@),
        pool is Err ==> r == Err::<(), KernelError>(KernelError::ResourceExhaustion) && final(arr)@ == old(arr)@,
{
    match pool {
        Ok(p) => {
            let mut tmp: Vec<i32> = vec![0i32; arr.len()];
            install_sort(&p, arr, tmp.as_mut_slice(), SEQUENTIAL_CUTOFF);
            Ok(())
        },
        Err(_) => Err(KernelError::ResourceExhaustion),
    }
}

/// Sorts `arr` on a fresh pool of `threads` workers. If the pool cannot be
/// built, `arr` is left as it was.
pub fn merge_sort_parallel(arr: &mut [i32], threads: usize) -> (r: Result<(), KernelError>)
    requires
        threads >= 1,
    ensures
        r is Ok ==> sorts(old(arr)@, final(arr)@),
        r is Err ==> r == Err::<(), KernelError>(KernelError::ResourceExhaustion) && final(arr)@ == old(arr)@,
{
    sort_on_pool(new_pool(threads), arr)
}

/// Relies on `rayon::ThreadPool::install`: the closure has run to completion
/// inside the pool when it returns. It sorts `a` with `mergesort_rec`.
#[verifier::external_body]
fn install_sort(pool: &rayon::ThreadPool, a: &mut [i32], tmp: &mut [i32], threshold: usize)
    requires
        old(tmp)@.len() >= old(a)@.len(),
    ensures
        sorts_with_buffer(old(a)@, final(a)@, old(tmp)@, final(tmp)@, threshold),
{
    pool.install(|| mergesort_rec(a, tmp, threshold))
}


/// Relies on `rand::Rng::gen` for `i32` on a `SmallRng`: the next value of
/// the generator. Nothing is known of it.
#[verifier::external_body]
fn next_i32(rng: &mut rand::rngs::SmallRng) -> i32 {
    rng.gen::<i32>()
}

/// Fills an array of `size` integers drawn from `rng` and sorts it with
/// `merge_sort_parallel` on `threads` workers. On success the result has
/// `size` elements in non-decreasing order.
pub fn run_mergesort(size: u64, threads: usize, rng: &mut rand::rngs::SmallRng) -> (r: Result<Vec<i32>, KernelError>)
    requires
        size <= usize::MAX,
        threads >= 1,
    ensures
        r matches Ok(v) ==> v@.len() == size && sorted(v@),
        r is Err ==> r == Err::<Vec<i32>, KernelError>(KernelError::ResourceExhaustion),
{
    let n = size as usize;
    let mut arr: Vec<i32> = Vec::new();
    let mut p: usize = 0;
    while p < n
        invariant
            p <= n,
            arr@.len() == p,
        decreases n - p,
    {
        arr.push(next_i32(rng));
        p = p + 1;
    }
    match merge_sort_parallel(arr.as_mut_slice(), threads) {
        Ok(()) => Ok(arr),
        Err(e) => Err(e),
    }
}

} // verus!
