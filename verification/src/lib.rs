//! Packed Poseidon2 permutations over prime fields of 31 bits.
//!
//! One, two or four instances of the permutation are held in a tensor of 64-bit lanes and permuted
//! together. What the permutation is, on the elements of one instance, stands in [`model`]; the
//! functions of [`external`], [`internal`] and [`permutation`] are proved to compute it on every
//! instance of a tensor, without overflow. [`packed`] says which lanes the rounds return,
//! [`helpers`] what a field has to supply, and [`laws`] and [`composition`] what holds of the
//! operations together. [`written_out`], [`rounds_written_out`] and [`lanes_written_out`] say in
//! numbers and lanes what all this means.

pub mod bijection;
pub mod composition;
pub mod external;
pub mod field;
pub mod helpers;
pub mod internal;
pub mod lanes;
pub mod lanes_written_out;
pub mod laws;
pub mod layout;
pub mod mds;
pub mod model;
pub mod number_theory;
pub mod packed;
pub mod permutation;
pub mod rounds_written_out;
pub mod tensor;
pub mod written_out;

pub use crate::external::{final_external_rounds, initial_external_rounds};
pub use crate::helpers::{Poseidon2AVX2Helpers, Poseidon2AVX2Methods};
pub use crate::internal::internal_rounds;
pub use crate::lanes::transpose;
pub use crate::mds::MdsPermutation;
pub use crate::permutation::Poseidon2AVX2;
pub use crate::tensor::Packed64bitM31Tensor;
