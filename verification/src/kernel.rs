//! The numeric kernels: one reduction, several equivalent implementations.

use vstd::prelude::*;
use vstd::slice::slice_index_get;
use vstd::slice::slice_subrange;

verus! {

/// Width of one lane group in the lane-structured kernel: how many elements
/// are treated as one block of parallel lanes.
pub const LANES: usize = 8;

/// The contribution of one aligned position: the widened product `a * b`
/// where the predicate `a > 2` holds, and zero elsewhere.
pub open spec fn term(a: i32, b: i32) -> int {
    if a > 2 {
        (a as int) * (b as int)
    } else {
        0
    }
}

pub open spec fn abs_val(x: int) -> int {
    if x < 0 {
        -x
    } else {
        x
    }
}

/// The value every kernel computes: the sum over all positions of the masked
/// product `term(a[i], b[i])`, as an unbounded integer.
pub open spec fn masked_dot(a: Seq<i32>, b: Seq<i32>) -> int
    decreases a.len(),
{
    if a.len() == 0 {
        0
    } else {
        masked_dot(a.drop_last(), b.drop_last()) + term(a.last(), b.last())
    }
}

/// The sum of the absolute values of all terms. Keeping it within `i64::MAX`
/// rules out 64-bit overflow of every partial sum, in whatever order an
/// implementation accumulates the terms.
pub open spec fn masked_abs(a: Seq<i32>, b: Seq<i32>) -> int
    decreases a.len(),
{
    if a.len() == 0 {
        0
    } else {
        masked_abs(a.drop_last(), b.drop_last()) + abs_val(term(a.last(), b.last()))
    }
}

proof fn lemma_take_succ(a: Seq<i32>, b: Seq<i32>, i: int)
    requires
        0 <= i < a.len(),
        i < b.len(),
    ensures
        masked_dot(a.take(i + 1), b.take(i + 1)) == masked_dot(a.take(i), b.take(i)) + term(
            a[i],
            b[i],
        ),
        masked_abs(a.take(i + 1), b.take(i + 1)) == masked_abs(a.take(i), b.take(i)) + abs_val(
            term(a[i], b[i]),
        ),
{
    assert(a.take(i + 1).drop_last() =~= a.take(i));
    assert(b.take(i + 1).drop_last() =~= b.take(i));
    assert(a.take(i + 1).last() == a[i]);
    assert(b.take(i + 1).last() == b[i]);
}

proof fn lemma_abs_bound(a: Seq<i32>, b: Seq<i32>)
    ensures
        abs_val(masked_dot(a, b)) <= masked_abs(a, b),
    decreases a.len(),
{
    if a.len() > 0 {
        lemma_abs_bound(a.drop_last(), b.drop_last());
    }
}

proof fn lemma_masked_abs_nonneg(a: Seq<i32>, b: Seq<i32>)
    ensures
        masked_abs(a, b) >= 0,
    decreases a.len(),
{
    if a.len() > 0 {
        lemma_masked_abs_nonneg(a.drop_last(), b.drop_last());
    }
}

/// Splitting the sequences at any point splits both sums.
proof fn lemma_split(a: Seq<i32>, b: Seq<i32>, k: int)
    requires
        a.len() == b.len(),
        0 <= k <= a.len(),
    ensures
        masked_dot(a, b) == masked_dot(a.take(k), b.take(k)) + masked_dot(a.skip(k), b.skip(k)),
        masked_abs(a, b) == masked_abs(a.take(k), b.take(k)) + masked_abs(a.skip(k), b.skip(k)),
    decreases a.len(),
{
    if k == a.len() {
        assert(a.take(k) =~= a);
        assert(b.take(k) =~= b);
        assert(a.skip(k) =~= Seq::<i32>::empty());
        assert(b.skip(k) =~= Seq::<i32>::empty());
    } else {
        lemma_split(a.drop_last(), b.drop_last(), k);
        assert(a.drop_last().take(k) =~= a.take(k));
        assert(b.drop_last().take(k) =~= b.take(k));
        assert(a.skip(k).drop_last() =~= a.drop_last().skip(k));
        assert(b.skip(k).drop_last() =~= b.drop_last().skip(k));
        assert(a.skip(k).last() == a.last());
        assert(b.skip(k).last() == b.last());
    }
}

/// Both the prefix and the suffix of the absolute sum stay below the whole.
proof fn lemma_prefix_abs_le(a: Seq<i32>, b: Seq<i32>, k: int)
    requires
        a.len() == b.len(),
        0 <= k <= a.len(),
    ensures
        masked_abs(a.take(k), b.take(k)) <= masked_abs(a, b),
        masked_abs(a.skip(k), b.skip(k)) <= masked_abs(a, b),
{
    lemma_split(a, b, k);
    lemma_masked_abs_nonneg(a.take(k), b.take(k));
    lemma_masked_abs_nonneg(a.skip(k), b.skip(k));
}

/// The product of two `i32` values always stays within the 64-bit range.
proof fn lemma_product_fits(x: i32, y: i32)
    ensures
        -0x4000_0000_0000_0000 <= (x as int) * (y as int) <= 0x4000_0000_0000_0000,
{
    assert(-0x4000_0000_0000_0000 <= (x as int) * (y as int) <= 0x4000_0000_0000_0000)
        by (nonlinear_arith)
        requires
            -0x8000_0000 <= x as int <= 0x7fff_ffff,
            -0x8000_0000 <= y as int <= 0x7fff_ffff,
    {}
}

/// Old-school directly indexed loop: the scalar reference kernel.
pub fn calculate_direct_index(slice_a: &[i32], slice_b: &[i32]) -> (res: i64)
    requires
        slice_a@.len() == slice_b@.len(),
        masked_abs(slice_a@, slice_b@) <= i64::MAX,
    ensures
        res == masked_dot(slice_a@, slice_b@),
{
    let len = slice_a.len();
    let mut res: i64 = 0;
    let mut i: usize = 0;
    while i < len
        invariant
            i <= len,
            len == slice_a@.len(),
            len == slice_b@.len(),
            masked_abs(slice_a@, slice_b@) <= i64::MAX,
            res == masked_dot(slice_a@.take(i as int), slice_b@.take(i as int)),
        decreases len - i,
    {
        let av = *slice_index_get(slice_a, i);
        let bv = *slice_index_get(slice_b, i);
        proof {
            lemma_product_fits(av, bv);
            lemma_take_succ(slice_a@, slice_b@, i as int);
            lemma_abs_bound(slice_a@.take(i as int + 1), slice_b@.take(i as int + 1));
            lemma_prefix_abs_le(slice_a@, slice_b@, i as int + 1);
        }
        if av > 2 {
            res = res + (av as i64) * (bv as i64);
        }
        i = i + 1;
    }
    proof {
        assert(slice_a@.take(len as int) =~= slice_a@);
        assert(slice_b@.take(len as int) =~= slice_b@);
    }
    res
}

/// Imperative calculation walking both slices in step and adding as it goes.
pub fn calculate_direct(slice_a: &[i32], slice_b: &[i32]) -> (res: i64)
    requires
        slice_a@.len() == slice_b@.len(),
        masked_abs(slice_a@, slice_b@) <= i64::MAX,
    ensures
        res == masked_dot(slice_a@, slice_b@),
{
    let mut res: i64 = 0;
    let mut i: usize = 0;
    while i < slice_a.len()
        invariant
            i <= slice_a@.len(),
            slice_a@.len() == slice_b@.len(),
            masked_abs(slice_a@, slice_b@) <= i64::MAX,
            res == masked_dot(slice_a@.take(i as int), slice_b@.take(i as int)),
        decreases slice_a@.len() - i,
    {
        let av = *slice_index_get(slice_a, i);
        let bv = *slice_index_get(slice_b, i);
        proof {
            lemma_product_fits(av, bv);
            lemma_take_succ(slice_a@, slice_b@, i as int);
            lemma_abs_bound(slice_a@.take(i as int + 1), slice_b@.take(i as int + 1));
            lemma_prefix_abs_le(slice_a@, slice_b@, i as int + 1);
        }
        if av > 2 {
            res = res + (av as i64) * (bv as i64);
        }
        i = i + 1;
    }
    proof {
        assert(slice_a@.take(slice_a@.len() as int) =~= slice_a@);
        assert(slice_b@.take(slice_b@.len() as int) =~= slice_b@);
    }
    res
}

/// Functional-style calculation: each pair yields an optional contribution,
/// kept where the predicate holds and summed.
pub fn calculate_iter(slice_a: &[i32], slice_b: &[i32]) -> (res: i64)
    requires
        slice_a@.len() == slice_b@.len(),
        masked_abs(slice_a@, slice_b@) <= i64::MAX,
    ensures
        res == masked_dot(slice_a@, slice_b@),
{
    let mut res: i64 = 0;
    let mut i: usize = 0;
    while i < slice_a.len()
        invariant
            i <= slice_a@.len(),
            slice_a@.len() == slice_b@.len(),
            masked_abs(slice_a@, slice_b@) <= i64::MAX,
            res == masked_dot(slice_a@.take(i as int), slice_b@.take(i as int)),
        decreases slice_a@.len() - i,
    {
        let av = *slice_index_get(slice_a, i);
        let bv = *slice_index_get(slice_b, i);
        proof {
            lemma_product_fits(av, bv);
            lemma_take_succ(slice_a@, slice_b@, i as int);
            lemma_abs_bound(slice_a@.take(i as int + 1), slice_b@.take(i as int + 1));
            lemma_prefix_abs_le(slice_a@, slice_b@, i as int + 1);
        }
        let contribution: Option<i64> = if av > 2 {
            Some((av as i64) * (bv as i64))
        } else {
            None
        };
        match contribution {
            Some(p) => {
                res = res + p;
            },
            None => {},
        }
        i = i + 1;
    }
    proof {
        assert(slice_a@.take(slice_a@.len() as int) =~= slice_a@);
        assert(slice_b@.take(slice_b@.len() as int) =~= slice_b@);
    }
    res
}

/// Functional-style calculation shaped as a fold: the accumulator is rebuilt
/// from its previous value at every position.
pub fn calculate_fold(slice_a: &[i32], slice_b: &[i32]) -> (res: i64)
    requires
        slice_a@.len() == slice_b@.len(),
        masked_abs(slice_a@, slice_b@) <= i64::MAX,
    ensures
        res == masked_dot(slice_a@, slice_b@),
{
    let mut acc: i64 = 0;
    let mut i: usize = 0;
    while i < slice_a.len()
        invariant
            i <= slice_a@.len(),
            slice_a@.len() == slice_b@.len(),
            masked_abs(slice_a@, slice_b@) <= i64::MAX,
            acc == masked_dot(slice_a@.take(i as int), slice_b@.take(i as int)),
        decreases slice_a@.len() - i,
    {
        let av = *slice_index_get(slice_a, i);
        let bv = *slice_index_get(slice_b, i);
        proof {
            lemma_product_fits(av, bv);
            lemma_take_succ(slice_a@, slice_b@, i as int);
            lemma_abs_bound(slice_a@.take(i as int + 1), slice_b@.take(i as int + 1));
            lemma_prefix_abs_le(slice_a@, slice_b@, i as int + 1);
        }
        acc = if av > 2 {
            acc + (av as i64) * (bv as i64)
        } else {
            acc
        };
        i = i + 1;
    }
    proof {
        assert(slice_a@.take(slice_a@.len() as int) =~= slice_a@);
        assert(slice_b@.take(slice_b@.len() as int) =~= slice_b@);
    }
    acc
}

/// Lane-structured kernel. The bulk of the input is processed in groups of
/// `LANES` elements: each lane of `a` is zeroed by a branch-free mask where
/// the predicate fails, multiplied with its partner lane under signed
/// widening, and added into one of two 64-bit accumulators — even-indexed
/// lanes into the first, odd-indexed lanes into the second, so that every
/// lane is captured exactly once across the two passes. The trailing
/// remainder of fewer than `LANES` elements is delegated to the scalar
/// kernel, which guarantees it uses the exact same predicate and
/// accumulation semantics as the bulk path.
pub fn calculate_lanes(slice_a: &[i32], slice_b: &[i32]) -> (res: i64)
    requires
        slice_a@.len() == slice_b@.len(),
        masked_abs(slice_a@, slice_b@) <= i64::MAX,
    ensures
        res == masked_dot(slice_a@, slice_b@),
{
    let len = slice_a.len();
    let tail_start = len - len % LANES;
    let mut acc_even: i64 = 0;
    let mut acc_odd: i64 = 0;
    let mut i: usize = 0;
    while i < tail_start
        invariant
            len == slice_a@.len(),
            len == slice_b@.len(),
            masked_abs(slice_a@, slice_b@) <= i64::MAX,
            tail_start <= len,
            tail_start % LANES == 0,
            i % LANES == 0,
            i <= tail_start,
            acc_even + acc_odd == masked_dot(slice_a@.take(i as int), slice_b@.take(i as int)),
            abs_val(acc_even as int) + abs_val(acc_odd as int) <= masked_abs(
                slice_a@.take(i as int),
                slice_b@.take(i as int),
            ),
        decreases tail_start - i,
    {
        assert(i + LANES <= tail_start);
        let mut k: usize = 0;
        while k < LANES
            invariant
                len == slice_a@.len(),
                len == slice_b@.len(),
                masked_abs(slice_a@, slice_b@) <= i64::MAX,
                i + LANES <= tail_start <= len,
                k <= LANES,
                acc_even + acc_odd == masked_dot(
                    slice_a@.take(i as int + k as int),
                    slice_b@.take(i as int + k as int),
                ),
                abs_val(acc_even as int) + abs_val(acc_odd as int) <= masked_abs(
                    slice_a@.take(i as int + k as int),
                    slice_b@.take(i as int + k as int),
                ),
            decreases LANES - k,
        {
            let idx = i + k;
            let av = *slice_index_get(slice_a, idx);
            let bv = *slice_index_get(slice_b, idx);
            // the mask: zero the lane of `a` where the predicate fails
            let masked = if av > 2 {
                av
            } else {
                0
            };
            proof {
                lemma_product_fits(masked, bv);
                lemma_take_succ(slice_a@, slice_b@, idx as int);
                lemma_abs_bound(slice_a@.take(idx as int + 1), slice_b@.take(idx as int + 1));
                lemma_prefix_abs_le(slice_a@, slice_b@, idx as int + 1);
            }
            // widening multiply of the masked lane pair
            let prod = (masked as i64) * (bv as i64);
            assert(prod == term(slice_a@[idx as int], slice_b@[idx as int]));
            if k % 2 == 0 {
                acc_even = acc_even + prod;
            } else {
                acc_odd = acc_odd + prod;
            }
            k = k + 1;
        }
        i = i + LANES;
    }
    proof {
        lemma_prefix_abs_le(slice_a@, slice_b@, i as int);
        lemma_split(slice_a@, slice_b@, i as int);
        lemma_abs_bound(slice_a@.skip(i as int), slice_b@.skip(i as int));
        lemma_masked_abs_nonneg(slice_a@.skip(i as int), slice_b@.skip(i as int));
        lemma_masked_abs_nonneg(slice_a@.take(i as int), slice_b@.take(i as int));
    }
    // horizontal fold of the two lane accumulators
    let bulk = acc_even + acc_odd;
    // remainder phase: delegate the trailing partial group to the scalar path
    let rem_a = slice_subrange(slice_a, i, len);
    let rem_b = slice_subrange(slice_b, i, len);
    proof {
        assert(rem_a@ =~= slice_a@.skip(i as int));
        assert(rem_b@ =~= slice_b@.skip(i as int));
    }
    let tail = calculate_iter(rem_a, rem_b);
    bulk + tail
}

/// The single error of the reduction: the two sequences differ in length.
/// A caller contract violation, not a recoverable condition.
#[derive(Clone, Copy, Debug, PartialEq, Eq, Structural)]
pub struct LengthMismatch;

/// The checked entry point shared by all kernels: rejects a pair of
/// sequences of differing length with `LengthMismatch`, never truncating,
/// and otherwise returns the full reduction.
pub fn reduce(slice_a: &[i32], slice_b: &[i32]) -> (r: Result<i64, LengthMismatch>)
    requires
        slice_a@.len() == slice_b@.len() ==> masked_abs(slice_a@, slice_b@) <= i64::MAX,
    ensures
        r is Err <==> slice_a@.len() != slice_b@.len(),
        r is Ok ==> r->Ok_0 == masked_dot(slice_a@, slice_b@),
{
    if slice_a.len() != slice_b.len() {
        Err(LengthMismatch)
    } else {
        Ok(calculate_direct_index(slice_a, slice_b))
    }
}

/// Equivalence law: on one pair of equal-length sequences, any results the
/// scalar kernels and the lane-structured kernel may return are the same
/// value, namely `masked_dot` of the inputs.
pub proof fn lemma_kernels_equivalent(
    a: &[i32],
    b: &[i32],
    r_index: i64,
    r_direct: i64,
    r_iter: i64,
    r_fold: i64,
    r_lanes: i64,
)
    requires
        call_ensures(calculate_direct_index, (a, b), r_index),
        call_ensures(calculate_direct, (a, b), r_direct),
        call_ensures(calculate_iter, (a, b), r_iter),
        call_ensures(calculate_fold, (a, b), r_fold),
        call_ensures(calculate_lanes, (a, b), r_lanes),
    ensures
        r_index == masked_dot(a@, b@),
        r_direct == r_index,
        r_iter == r_index,
        r_fold == r_index,
        r_lanes == r_index,
{
}

/// Predicate correctness: where every element of `a` fails the `a > 2`
/// predicate, the reduction is zero, whatever `b` holds.
pub proof fn lemma_all_filtered_zero(a: Seq<i32>, b: Seq<i32>)
    requires
        a.len() == b.len(),
        forall|i: int| 0 <= i < a.len() ==> #[trigger] a[i] <= 2,
    ensures
        masked_dot(a, b) == 0,
    decreases a.len(),
{
    if a.len() > 0 {
        assert(a.last() == a[a.len() - 1]);
        assert(forall|i: int|
            0 <= i < a.drop_last().len() ==> #[trigger] a.drop_last()[i] == a[i]);
        lemma_all_filtered_zero(a.drop_last(), b.drop_last());
    }
}

/// Zero-length correctness: the reduction of two empty sequences is zero.
pub proof fn lemma_empty_zero()
    ensures
        masked_dot(Seq::<i32>::empty(), Seq::<i32>::empty()) == 0,
{
}

/// A pointwise bound on the elements bounds the absolute sum, letting a
/// caller discharge the overflow precondition of the kernels from the range
/// its data was drawn from.
pub proof fn lemma_masked_abs_pointwise_bound(a: Seq<i32>, b: Seq<i32>, m: int)
    requires
        a.len() == b.len(),
        0 <= m,
        forall|i: int| 0 <= i < a.len() ==> abs_val(#[trigger] a[i] as int) <= m,
        forall|i: int| 0 <= i < a.len() ==> abs_val(#[trigger] b[i] as int) <= m,
    ensures
        masked_abs(a, b) <= a.len() * m * m,
    decreases a.len(),
{
    if a.len() > 0 {
        assert(forall|i: int|
            0 <= i < a.drop_last().len() ==> #[trigger] a.drop_last()[i] == a[i]);
        assert(forall|i: int|
            0 <= i < b.drop_last().len() ==> #[trigger] b.drop_last()[i] == b[i]);
        lemma_masked_abs_pointwise_bound(a.drop_last(), b.drop_last(), m);
        let x = a.last() as int;
        let y = b.last() as int;
        assert(a.last() == a[a.len() - 1]);
        assert(b.last() == b[b.len() - 1]);
        assert(-m <= x <= m && -m <= y <= m);
        assert(-(m * m) <= x * y <= m * m) by (nonlinear_arith)
            requires
                -m <= x <= m,
                -m <= y <= m,
        {}
        let n = a.len() as int;
        assert((n - 1) * m * m + m * m == n * m * m) by (nonlinear_arith)
        {}
    }
}

} // verus!
