use rust_zca_bench::calculate_direct;
use rust_zca_bench::calculate_direct_index;
use rust_zca_bench::calculate_fold;
use rust_zca_bench::calculate_iter;
use rust_zca_bench::calculate_lanes;
use rust_zca_bench::reduce;
use rust_zca_bench::LengthMismatch;

const EXPECTED_RESULT: i64 = 900;

fn reference_vecs() -> (Vec<i32>, Vec<i32>) {
    (
        vec![1, 2, 3, 4, 5, 6, 7, 8, 9, 10],
        vec![11, 12, 13, 14, 15, 16, 17, 18, 19, 20],
    )
}

/// Plain re-statement of the reduction rule, used as an oracle in tests.
fn oracle(a: &[i32], b: &[i32]) -> i64 {
    assert_eq!(a.len(), b.len());
    let mut sum: i64 = 0;
    for i in 0..a.len() {
        if a[i] > 2 {
            sum += a[i] as i64 * b[i] as i64;
        }
    }
    sum
}

#[test]
fn calculate_direct_correct() {
    let (a, b) = reference_vecs();
    let res = calculate_direct(&a, &b);
    assert_eq!(EXPECTED_RESULT, res, "direct was {}", res);
}

#[test]
fn calculate_direct_index_correct() {
    let (a, b) = reference_vecs();
    let res = calculate_direct_index(&a, &b);
    assert_eq!(EXPECTED_RESULT, res, "direct_index was {}", res);
}

#[test]
fn calculate_iter_correct() {
    let (a, b) = reference_vecs();
    let res = calculate_iter(&a, &b);
    assert_eq!(EXPECTED_RESULT, res, "iter was {}", res);
}

#[test]
fn calculate_fold_correct() {
    let (a, b) = reference_vecs();
    let res = calculate_fold(&a, &b);
    assert_eq!(EXPECTED_RESULT, res, "fold was {}", res);
}

#[test]
fn calculate_lanes_correct() {
    let (a, b) = reference_vecs();
    let res = calculate_lanes(&a, &b);
    assert_eq!(EXPECTED_RESULT, res, "lanes was {}", res);
}

#[test]
fn all_kernels_agree_on_reference() {
    let (a, b) = reference_vecs();
    let expected = calculate_direct_index(&a, &b);
    assert_eq!(expected, calculate_direct(&a, &b));
    assert_eq!(expected, calculate_iter(&a, &b));
    assert_eq!(expected, calculate_fold(&a, &b));
    assert_eq!(expected, calculate_lanes(&a, &b));
}

#[test]
fn predicate_filters_everything() {
    // every element of `a` is at most 2, so nothing contributes
    let a = vec![0, 1, 2, -5, 2, 1, 0, -100, 2];
    let b = vec![7, -3, 9, 100, 0, 55, -1, 42, 13];
    assert_eq!(0, calculate_direct_index(&a, &b));
    assert_eq!(0, calculate_direct(&a, &b));
    assert_eq!(0, calculate_iter(&a, &b));
    assert_eq!(0, calculate_fold(&a, &b));
    assert_eq!(0, calculate_lanes(&a, &b));
}

#[test]
fn empty_sequences_reduce_to_zero() {
    let a: Vec<i32> = vec![];
    let b: Vec<i32> = vec![];
    assert_eq!(0, calculate_direct_index(&a, &b));
    assert_eq!(0, calculate_lanes(&a, &b));
    assert_eq!(Ok(0), reduce(&a, &b));
}

#[test]
fn signed_arithmetic_is_exact() {
    // 5 * -7 contributes, 1 and -4 are masked out, 3 * 2 contributes
    let a = vec![5, 1, -4, 3];
    let b = vec![-7, 100, 50, 2];
    assert_eq!(-29, calculate_direct_index(&a, &b));
    assert_eq!(-29, calculate_direct(&a, &b));
    assert_eq!(-29, calculate_iter(&a, &b));
    assert_eq!(-29, calculate_fold(&a, &b));
    assert_eq!(-29, calculate_lanes(&a, &b));
}

fn patterned_vecs(len: usize) -> (Vec<i32>, Vec<i32>) {
    let a: Vec<i32> = (0..len).map(|i| (i as i32 * 3 - 7) % 11).collect();
    let b: Vec<i32> = (0..len).map(|i| (i as i32 * 5 - 9) % 13).collect();
    (a, b)
}

#[test]
fn remainder_lengths_match_scalar_oracle() {
    // one full lane group of 8 plus a partial one: both phases run
    for len in [9usize, 11, 15] {
        let (a, b) = patterned_vecs(len);
        let expected = oracle(&a, &b);
        assert_eq!(expected, calculate_direct_index(&a, &b), "len {}", len);
        assert_eq!(expected, calculate_lanes(&a, &b), "len {}", len);
    }
}

#[test]
fn lane_group_boundaries_match_scalar_oracle() {
    // below one group, exactly one group, exactly two groups
    for len in [1usize, 3, 7, 8, 16, 24] {
        let (a, b) = patterned_vecs(len);
        let expected = oracle(&a, &b);
        assert_eq!(expected, calculate_lanes(&a, &b), "len {}", len);
    }
}

#[test]
fn long_input_accumulates_without_overflow() {
    let a = vec![9i32; 100_000];
    let b = vec![9i32; 100_000];
    let expected: i64 = 8_100_000;
    assert_eq!(expected, calculate_direct_index(&a, &b));
    assert_eq!(expected, calculate_direct(&a, &b));
    assert_eq!(expected, calculate_iter(&a, &b));
    assert_eq!(expected, calculate_fold(&a, &b));
    assert_eq!(expected, calculate_lanes(&a, &b));
    assert_eq!(Ok(expected), reduce(&a, &b));
}

#[test]
fn reduce_reference_vecs() {
    let (a, b) = reference_vecs();
    assert_eq!(Ok(EXPECTED_RESULT), reduce(&a, &b));
}

#[test]
fn reduce_rejects_length_mismatch() {
    let a = vec![3, 4, 5];
    let b = vec![1, 2];
    assert_eq!(Err(LengthMismatch), reduce(&a, &b));
    assert_eq!(Err(LengthMismatch), reduce(&b, &a));
    let empty: Vec<i32> = vec![];
    assert_eq!(Err(LengthMismatch), reduce(&a, &empty));
}
