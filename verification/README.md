# poseidon2

Packed Poseidon2 permutations over prime fields of 31 bits, verified with Verus.

A tensor of height 1, 2, 3 or 4 holds one instance of width 16, two of width 16, two of width 24
or four of width 16, each element in a lane of 64 bits. All instances of a tensor are permuted
together.

- `src/model.rs`: what the permutation is, on the elements of one instance.
- `src/layout.rs`, `src/tensor.rs`, `src/lanes.rs`: where the elements stand, and the operations on
  lanes, rows and tensors.
- `src/helpers.rs`: the traits that a field implements. What is proved rests on the contracts of
  these traits.
- `src/external.rs`, `src/internal.rs`, `src/permutation.rs`: the rounds and the permutation.
- `src/packed.rs`: which lanes the rounds return, given what a field's reductions and s-boxes
  return.
- `src/field.rs`, `src/number_theory.rs`, `src/bijection.rs`: residues, primes, and why the
  permutation permutes.
- `src/laws.rs`, `src/composition.rs`: what holds of the operations together, and how the calls of
  the rounds compose.
- `src/mds.rs`: the marker of permutations by a maximum distance separable matrix.
- `app/`: the permutation as an implementation of `p3_symmetric::Permutation`, with round constants
  drawn from a `rand` generator.
