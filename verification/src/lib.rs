//! A conditional, masked dot product over two equal-length `i32` sequences,
//! computed by several equivalent strategies: indexed and iterator-style
//! scalar loops, and a lane-structured kernel that processes fixed-width
//! groups of elements with a branch-free mask and delegates the trailing
//! remainder to the scalar path.
//!
//! All kernels implement one contract: the 64-bit signed sum, over every
//! position `i`, of `a[i] * b[i]` restricted to positions where `a[i] > 2`.

mod kernel;
mod testset;

pub use kernel::abs_val;
pub use kernel::calculate_direct;
pub use kernel::calculate_direct_index;
pub use kernel::calculate_fold;
pub use kernel::calculate_iter;
pub use kernel::calculate_lanes;
pub use kernel::lemma_all_filtered_zero;
pub use kernel::lemma_empty_zero;
pub use kernel::lemma_kernels_equivalent;
pub use kernel::lemma_masked_abs_pointwise_bound;
pub use kernel::masked_abs;
pub use kernel::masked_dot;
pub use kernel::reduce;
pub use kernel::term;
pub use kernel::LengthMismatch;
pub use kernel::LANES;
pub use testset::TestSet;
