use vstd::prelude::*;

verus! {

/// Marks a permutation of `[T; WIDTH]` that is multiplication by a maximum distance separable
/// matrix.
pub trait MdsPermutation<T: Clone, const WIDTH: usize> {

}

} // verus!
