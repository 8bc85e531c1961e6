//! A pool of equal-length vectors of bounded elements, sampled at random to
//! supply pairs of sequences to the kernels.

use vstd::prelude::*;
use rand::Rng;

verus! {

#[verifier::external_type_specification]
#[verifier::external_body]
pub struct ExThreadRng(rand::rngs::ThreadRng);

/// Relies on rand's `Rng::gen_range` over the `i32` range `low..high`: the
/// sample lies within that half-open range. rand panics on an empty range,
/// which the precondition rules out.
#[verifier::external_body]
fn sample_range_i32(low: i32, high: i32, rng: &mut rand::rngs::ThreadRng) -> (x: i32)
    requires
        low < high,
    ensures
        low <= x < high,
{
    rng.gen_range(low..high)
}

/// Relies on rand's `Rng::gen_range` over the `usize` range `0..bound`: the
/// sampled index is below the bound. rand panics on an empty range, which
/// the precondition rules out.
#[verifier::external_body]
fn sample_index(bound: usize, rng: &mut rand::rngs::ThreadRng) -> (ix: usize)
    requires
        0 < bound,
    ensures
        ix < bound,
{
    rng.gen_range(0..bound)
}

/// A fixed pool of vectors, every one of the same length, with a way to
/// sample pairs of them at random.
pub struct TestSet {
    vectors: Vec<Vec<i32>>,
}

impl View for TestSet {
    type V = Seq<Seq<i32>>;

    closed spec fn view(&self) -> Seq<Seq<i32>> {
        Seq::new(self.vectors@.len(), |i: int| self.vectors@[i]@)
    }
}

/// One freshly drawn vector of `vec_length` elements, each uniform in
/// `[0, 10)`.
fn random_vector(vec_length: usize, rng: &mut rand::rngs::ThreadRng) -> (v: Vec<i32>)
    ensures
        v@.len() == vec_length,
        forall|j: int| 0 <= j < vec_length ==> 0 <= #[trigger] v@[j] < 10,
{
    let mut v: Vec<i32> = Vec::new();
    let mut j: usize = 0;
    while j < vec_length
        invariant
            j <= vec_length,
            v@.len() == j,
            forall|p: int| 0 <= p < j ==> 0 <= #[trigger] v@[p] < 10,
        decreases vec_length - j,
    {
        let x = sample_range_i32(0, 10, rng);
        v.push(x);
        j = j + 1;
    }
    v
}

impl TestSet {
    /// Every vector in the pool has the same length as the first.
    pub open spec fn wf(self) -> bool {
        forall|i: int| 0 <= i < self@.len() ==> (#[trigger] self@[i]).len() == self@[0].len()
    }

    /// Builds a pool of `num_vecs` vectors of `vec_length` elements each,
    /// drawn uniformly from `[0, 10)`.
    pub fn create(vec_length: usize, num_vecs: usize, rng: &mut rand::rngs::ThreadRng) -> (t:
        TestSet)
        ensures
            t@.len() == num_vecs,
            forall|i: int| 0 <= i < num_vecs ==> (#[trigger] t@[i]).len() == vec_length,
            forall|i: int, j: int|
                0 <= i < num_vecs && 0 <= j < vec_length ==> 0 <= #[trigger] t@[i][j] < 10,
            t.wf(),
    {
        let mut vecs: Vec<Vec<i32>> = Vec::new();
        let mut n: usize = 0;
        while n < num_vecs
            invariant
                n <= num_vecs,
                vecs@.len() == n,
                forall|i: int| 0 <= i < n ==> (#[trigger] vecs@[i]@).len() == vec_length,
                forall|i: int, j: int|
                    0 <= i < n && 0 <= j < vec_length ==> 0 <= #[trigger] vecs@[i]@[j] < 10,
            decreases num_vecs - n,
        {
            let v = random_vector(vec_length, rng);
            vecs.push(v);
            n = n + 1;
        }
        let t = TestSet { vectors: vecs };
        proof {
            assert(forall|i: int| 0 <= i < num_vecs ==> t@[i] =~= vecs@[i]@);
        }
        t
    }

    /// Two vectors drawn from the pool with replacement, handed out as
    /// borrowed slices; each is some member of the pool, so with a
    /// well-formed pool the two slices have equal length.
    pub fn sample_pair<'a>(&'a self, rng: &mut rand::rngs::ThreadRng) -> (r: (&'a [i32], &'a [
        i32]))
        requires
            self@.len() > 0,
        ensures
            exists|i: int| 0 <= i < self@.len() && r.0@ == #[trigger] self@[i],
            exists|j: int| 0 <= j < self@.len() && r.1@ == #[trigger] self@[j],
            self.wf() ==> r.0@.len() == r.1@.len(),
    {
        let ia = sample_index(self.vectors.len(), rng);
        let ib = sample_index(self.vectors.len(), rng);
        let va = self.vectors[ia].as_slice();
        let vb = self.vectors[ib].as_slice();
        proof {
            assert(va@ == self@[ia as int]);
            assert(vb@ == self@[ib as int]);
        }
        (va, vb)
    }

    /// How many vectors the pool holds.
    pub fn num_vecs(&self) -> (n: usize)
        ensures
            n == self@.len(),
    {
        self.vectors.len()
    }

    /// The common length of the pool's vectors.
    pub fn vec_length(&self) -> (n: usize)
        requires
            self@.len() > 0,
        ensures
            n == self@[0].len(),
    {
        self.vectors[0].len()
    }
}

} // verus!
