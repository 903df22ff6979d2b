use bench_rs::harness::{is_power_of_two, validate_args, Algorithm, ArgError};
use bench_rs::mergesort::{
    merge_into, merge_sort_parallel, mergesort_rec, run_mergesort, sort_on_pool, SEQUENTIAL_CUTOFF,
};
use bench_rs::montecarlo::{sample_plan, worker_seed, SEED_BASE};
use bench_rs::partition::{chunk_span, row_plan, row_span, Span};
use bench_rs::pool::{new_pool, KernelError};
use rand::rngs::SmallRng;
use rand::SeedableRng;

fn pseudo_random(n: usize, mut state: u64) -> Vec<i32> {
    let mut v = Vec::with_capacity(n);
    for _ in 0..n {
        state = state.wrapping_mul(6364136223846793005).wrapping_add(1442695040888963407);
        v.push((state >> 32) as u32 as i32);
    }
    v
}

fn is_sorted(v: &[i32]) -> bool {
    v.windows(2).all(|w| w[0] <= w[1])
}

fn same_elements(a: &[i32], b: &[i32]) -> bool {
    let mut x = a.to_vec();
    let mut y = b.to_vec();
    x.sort();
    y.sort();
    x == y
}

#[test]
fn merge_sort_sorts_every_size_and_thread_count() {
    for &threads in &[1usize, 2, 4, 8] {
        for &size in &[0usize, 1, 2, 32769, 100000] {
            let input = pseudo_random(size, size as u64 + threads as u64);
            let mut arr = input.clone();
            assert_eq!(merge_sort_parallel(&mut arr, threads), Ok(()));
            assert_eq!(arr.len(), size);
            assert!(is_sorted(&arr));
            assert!(same_elements(&arr, &input));
        }
    }
}

#[test]
fn merge_sort_duplicates() {
    for &threads in &[1usize, 2, 4, 8] {
        let mut arr = vec![3, 1, 3, 2, 3];
        assert_eq!(merge_sort_parallel(&mut arr, threads), Ok(()));
        assert_eq!(arr, vec![1, 2, 3, 3, 3]);
    }
}

#[test]
fn merge_sort_extreme_values() {
    let mut arr = vec![i32::MAX, 0, i32::MIN, -1, i32::MAX, i32::MIN];
    assert_eq!(merge_sort_parallel(&mut arr, 2), Ok(()));
    assert_eq!(arr, vec![i32::MIN, i32::MIN, -1, 0, i32::MAX, i32::MAX]);
}

#[test]
fn mergesort_rec_small_threshold_takes_parallel_path() {
    let input = pseudo_random(1000, 7);
    let mut arr = input.clone();
    let mut tmp = vec![0i32; arr.len()];
    mergesort_rec(&mut arr, &mut tmp, 4);
    assert!(is_sorted(&arr));
    assert!(same_elements(&arr, &input));
    assert_eq!(tmp.len(), 1000);
}

#[test]
fn merge_into_takes_both_runs() {
    let left = [1, 3, 5, 7];
    let right = [2, 3, 4];
    let mut out = [0i32; 9];
    out[7] = 42;
    out[8] = 43;
    merge_into(&left, &right, &mut out);
    assert_eq!(out, [1, 2, 3, 3, 4, 5, 7, 42, 43]);
}

#[test]
fn merge_into_empty_sides() {
    let mut out = [9i32; 3];
    merge_into(&[], &[4, 5], &mut out);
    assert_eq!(out, [4, 5, 9]);
    merge_into(&[1, 2, 3], &[], &mut out);
    assert_eq!(out, [1, 2, 3]);
}

#[test]
fn sequential_cutoff_value() {
    assert_eq!(SEQUENTIAL_CUTOFF, 32768);
}

#[test]
fn run_mergesort_produces_sorted_array() {
    let mut rng = SmallRng::seed_from_u64(5);
    let v = run_mergesort(40000, 4, &mut rng).unwrap();
    assert_eq!(v.len(), 40000);
    assert!(is_sorted(&v));
    assert!(v.first() != v.last());
    assert_eq!(run_mergesort(0, 1, &mut rng).unwrap().len(), 0);
}

#[test]
fn pool_builds() {
    assert!(new_pool(2).is_ok());
    assert_eq!(KernelError::ResourceExhaustion.message(), "failed to build the worker pool");
}

fn covers_exactly(spans: &[Span], size: u64) -> bool {
    let mut owners = vec![0u32; size as usize];
    for s in spans {
        let mut i = s.start;
        while i < s.end {
            if i >= size {
                return false;
            }
            owners[i as usize] += 1;
            i += 1;
        }
    }
    owners.iter().all(|&c| c == 1)
}

#[test]
fn chunk_split_covers_range() {
    for &size in &[0u64, 1, 3, 7, 10, 100, 1001] {
        for &threads in &[1usize, 2, 3, 4, 8, 16] {
            let spans: Vec<Span> = (0..threads).map(|t| chunk_span(size, threads, t)).collect();
            assert!(covers_exactly(&spans, size), "size {} threads {}", size, threads);
        }
    }
}

#[test]
fn chunk_split_last_worker_absorbs_remainder() {
    assert_eq!(chunk_span(10, 3, 0), Span { start: 0, end: 3 });
    assert_eq!(chunk_span(10, 3, 1), Span { start: 3, end: 6 });
    assert_eq!(chunk_span(10, 3, 2), Span { start: 6, end: 10 });
}

#[test]
fn chunk_split_fewer_samples_than_workers() {
    assert_eq!(chunk_span(2, 4, 0), Span { start: 0, end: 1 });
    assert_eq!(chunk_span(2, 4, 1), Span { start: 1, end: 2 });
    assert_eq!(chunk_span(2, 4, 2).len(), 0);
    assert_eq!(chunk_span(2, 4, 3).len(), 0);
}

#[test]
fn row_split_covers_rows() {
    for &n in &[0u64, 1, 2, 5, 17, 64] {
        for &threads in &[1usize, 2, 3, 4, 7] {
            let spans = row_plan(n, threads);
            assert_eq!(spans.len(), threads);
            assert!(covers_exactly(&spans, n), "n {} threads {}", n, threads);
        }
    }
}

#[test]
fn row_split_values() {
    assert_eq!(row_span(10, 4, 0), Span { start: 0, end: 2 });
    assert_eq!(row_span(10, 4, 1), Span { start: 2, end: 5 });
    assert_eq!(row_span(10, 4, 3), Span { start: 7, end: 10 });
}

#[test]
fn row_split_of_empty_matrix_is_empty() {
    for s in row_plan(0, 4) {
        assert_eq!(s.len(), 0);
    }
}

#[test]
fn worker_seeds_follow_index() {
    assert_eq!(SEED_BASE, 0x9E37_79B9_7F4A_7C15);
    assert_eq!(worker_seed(0), 0x9E37_79B9_7F4A_7C14);
    assert_eq!(worker_seed(1), 0x9E37_79B9_7F4A_7C17);
}

#[test]
fn sample_plan_is_deterministic() {
    let a = sample_plan(1_000_000, 4);
    let b = sample_plan(1_000_000, 4);
    assert_eq!(a, b);
    assert_eq!(a.len(), 4);
    assert_eq!(a[0].span, Span { start: 0, end: 250_000 });
    assert_eq!(a[3].span, Span { start: 750_000, end: 1_000_000 });
    assert_eq!(a[2].seed, SEED_BASE ^ 3);
    let spans: Vec<Span> = a.iter().map(|t| t.span).collect();
    assert!(covers_exactly(&spans, 1_000_000));
}

#[test]
fn power_of_two_sizes() {
    assert!(is_power_of_two(8));
    assert!(is_power_of_two(1));
    assert!(is_power_of_two(1 << 63));
    assert!(!is_power_of_two(6));
    assert!(!is_power_of_two(0));
    assert!(!is_power_of_two(u64::MAX));
}

#[test]
fn validate_args_reports_first_error() {
    assert_eq!(validate_args(0, 1, 1, 1), Err(ArgError::Algorithm));
    assert_eq!(validate_args(6, 0, 0, 0), Err(ArgError::Algorithm));
    assert_eq!(validate_args(1, 0, 0, 0), Err(ArgError::Threads));
    assert_eq!(validate_args(2, 1, 0, 0), Err(ArgError::Runs));
    assert_eq!(validate_args(3, 1, 1, 0), Err(ArgError::Size));
    assert_eq!(validate_args(4, 8, 3, 100), Ok(Algorithm::ParallelMergeSort));
    assert_eq!(ArgError::Runs.message(), "--runs must be >= 1");
}

#[test]
fn algorithm_ids_round_trip() {
    for id in 1..=5u32 {
        assert_eq!(Algorithm::from_id(id).unwrap().id(), id);
    }
    assert_eq!(Algorithm::from_id(5), Some(Algorithm::RecursiveFft));
    assert_eq!(Algorithm::from_id(0), None);
}

#[test]
fn merge_sort_result_independent_of_threads() {
    let input = pseudo_random(70000, 99);
    let mut one = input.clone();
    let mut eight = input.clone();
    assert_eq!(merge_sort_parallel(&mut one, 1), Ok(()));
    assert_eq!(merge_sort_parallel(&mut eight, 8), Ok(()));
    assert_eq!(one, eight);
}

#[test]
fn run_mergesort_same_seed_same_array() {
    let a = run_mergesort(1000, 2, &mut SmallRng::seed_from_u64(11)).unwrap();
    let b = run_mergesort(1000, 3, &mut SmallRng::seed_from_u64(11)).unwrap();
    assert_eq!(a, b);
}

#[test]
fn merge_into_unsorted_inputs_two_pointer() {
    let mut out = [0i32; 5];
    merge_into(&[3, 1], &[2, 0], &mut out);
    assert_eq!(out, [2, 0, 3, 1, 0]);
    let mut out = [7i32; 4];
    merge_into(&[5, 1, 4], &[], &mut out);
    assert_eq!(out, [5, 1, 4, 7]);
    merge_into(&[], &[9, 2], &mut out);
    assert_eq!(out, [9, 2, 4, 7]);
}

#[test]
fn merge_into_ties_from_left_first() {
    let mut out = [0i32; 4];
    merge_into(&[2, 1], &[2, 3], &mut out);
    assert_eq!(out, [2, 1, 2, 3]);
}

#[test]
fn mergesort_rec_buffer_frame() {
    let mut arr = vec![4, 3, 2, 1];
    let mut tmp = vec![10, 11, 12, 13, 14, 15];
    mergesort_rec(&mut arr, &mut tmp, 100);
    assert_eq!(arr, vec![1, 2, 3, 4]);
    assert_eq!(tmp, vec![10, 11, 12, 13, 14, 15]);
    let mut arr = vec![4, 3, 2, 1];
    mergesort_rec(&mut arr, &mut tmp, 1);
    assert_eq!(arr, vec![1, 2, 3, 4]);
    assert_eq!(&tmp[4..], &[14, 15]);
}

#[test]
fn sort_on_pool_sorts_with_a_pool() {
    let mut arr = vec![5, -2, 9, 0, 5];
    assert_eq!(sort_on_pool(new_pool(2), &mut arr), Ok(()));
    assert_eq!(arr, vec![-2, 0, 5, 5, 9]);
}

#[test]
fn sort_on_pool_without_pool_leaves_input() {
    let mut arr = vec![5, -2, 9];
    assert_eq!(
        sort_on_pool(Err(KernelError::ResourceExhaustion), &mut arr),
        Err(KernelError::ResourceExhaustion)
    );
    assert_eq!(arr, vec![5, -2, 9]);
}
