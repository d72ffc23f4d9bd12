//! What a field has to supply to be permuted.
use crate::field::{congruent, lemma_monty_reduce_unique, monty_reduce, radix};
use crate::lanes::U64x4;
use crate::layout::{instances, is_lead, supported, width};
use crate::model::{FieldModel, Instance, Instances};
use crate::number_theory::lemma_odd_prime;
use crate::tensor::{in_block, Packed64bitM31Tensor};
use vstd::arithmetic::div_mod::lemma_small_mod;
use vstd::prelude::*;

verus! {

/// What an internal round hands to the s-boxes: `rc` is canonical, and `s0` holds elements of 32
/// bits in the lanes that hold the elements 0 of the instances, and zero in the others.
pub open spec fn internal_sbox_input(field: FieldModel, height: usize, s0: U64x4, rc: u32) -> bool {
    &&& rc < field.prime
    &&& forall|c: int|
        0 <= c < 4 ==> (#[trigger] s0[c]) < radix() && (!is_lead(height, c) ==> s0[c] == 0)
}

/// What the s-boxes make of that: `x -> (x + rc)^s` in the lanes that hold the elements 0 of the
/// instances, and zero modulo the prime in the others.
pub open spec fn internal_sbox_output(
    field: FieldModel,
    height: usize,
    s0: U64x4,
    rc: u32,
    out: U64x4,
) -> bool {
    forall|c: int|
        0 <= c < 4 ==> (#[trigger] out[c]) < radix() && congruent(
            out[c] as int,
            if is_lead(height, c) {
                field.internal_sbox(s0[c] + rc)
            } else {
                0
            },
            field.prime,
        )
}

/// What the internal s-boxes of one height return.
pub open spec fn internal_sboxed<P2AVX2: Poseidon2AVX2Helpers>(
    height: usize,
    s0: U64x4,
    rc: u32,
) -> U64x4 {
    if height == 1 {
        P2AVX2::scalar_sboxed(s0, rc)
    } else if height == 4 {
        P2AVX2::quad_sboxed(s0, rc)
    } else {
        P2AVX2::double_sboxed(s0, rc)
    }
}

/// `data` are the instances of a tensor of the given height, and all their elements are canonical.
pub open spec fn canonical_instances(height: usize, prime: int, data: Instances) -> bool {
    &&& data.len() == instances(height)
    &&& forall|k: int| 0 <= k < data.len() ==> (#[trigger] data[k]).len() == width(height)
    &&& forall|k: int, i: int|
        0 <= k < data.len() && 0 <= i < width(height) ==> 0 <= #[trigger] data[k][i] < prime
}

/// The arithmetic of one field on vectors of four lanes.
pub trait Poseidon2AVX2Helpers {
    /// The field, and the s-box on it.
    spec fn field() -> FieldModel;

    /// What [`Self::partial_reduce_vec`] returns.
    spec fn partially_reduced(state: U64x4) -> U64x4;

    /// What [`Self::joint_sbox_vec`] returns.
    spec fn joint_sboxed(state: U64x4) -> U64x4;

    /// What [`Self::quad_internal_sbox`] returns.
    spec fn quad_sboxed(s0: U64x4, rc: u32) -> U64x4;

    /// What [`Self::double_internal_sbox`] returns.
    spec fn double_sboxed(s0: U64x4, rc: u32) -> U64x4;

    /// What [`Self::scalar_internal_sbox`] returns.
    spec fn scalar_sboxed(s0: U64x4, rc: u32) -> U64x4;

    /// The field is a prime field, the s-boxes permute it, its prime has 31 bits, and
    /// [`Self::PACKED_3XPRIME`] holds three times the prime in every lane.
    proof fn field_facts()
        ensures
            Self::field().is_field(),
            0x4000_0000 < Self::field().prime < 0x8000_0000,
            forall|i: int|
                0 <= i < 4 ==> #[trigger] Self::PACKED_3XPRIME[i] == 3 * Self::field().prime,
    ;

    /// Given a vector of lanes apply a monty reduction to each lane.
    /// Each lane must lie in `[0, 2^32 P)`.
    /// Each output will lie in `[0, P)`.
    fn full_reduce_vec(state: U64x4) -> (out: U64x4)
        requires
            forall|i: int| 0 <= i < 4 ==> #[trigger] state[i] < radix() * Self::field().prime,
        ensures
            forall|i: int|
                0 <= i < 4 ==> (#[trigger] out[i]) < Self::field().prime && congruent(
                    out[i] * radix(),
                    state[i] as int,
                    Self::field().prime,
                ),
    ;

    /// Given a vector of lanes apply a partial monty reduction to each lane.
    /// Each lane must lie in `[0, 2^32 P)`.
    /// Each output will lie in `[0, 2P)`.
    fn partial_reduce_vec(state: U64x4) -> (out: U64x4)
        requires
            forall|i: int| 0 <= i < 4 ==> #[trigger] state[i] < radix() * Self::field().prime,
        ensures
            out == Self::partially_reduced(state),
            forall|i: int|
                0 <= i < 4 ==> (#[trigger] out[i]) < 2 * Self::field().prime && congruent(
                    out[i] * radix(),
                    state[i] as int,
                    Self::field().prime,
                ),
    ;

    /// Apply the s-box: `x -> x^s`, for some small `s` coprime to `P - 1`, to each lane.
    /// Each lane must lie in `[0, P)`.
    /// Each output will lie in `[0, 2^33)`.
    fn joint_sbox_vec(state: U64x4) -> (out: U64x4)
        requires
            forall|i: int| 0 <= i < 4 ==> #[trigger] state[i] < Self::field().prime,
        ensures
            out == Self::joint_sboxed(state),
            forall|i: int|
                0 <= i < 4 ==> (#[trigger] out[i]) < 2 * radix() && congruent(
                    out[i] as int,
                    Self::field().sbox(state[i] as int),
                    Self::field().prime,
                ),
    ;

    /// Apply the s-box: `x -> (x + rc)^s` to each lane.
    fn quad_internal_sbox(s0: U64x4, rc: u32) -> (out: U64x4)
        ensures
            out == Self::quad_sboxed(s0, rc),
            internal_sbox_input(Self::field(), 4, s0, rc) ==> internal_sbox_output(
                Self::field(),
                4,
                s0,
                rc,
                out,
            ),
    ;

    /// Apply the s-box: `x -> (x + rc)^s` to lanes 0 and 2.
    fn double_internal_sbox(s0: U64x4, rc: u32) -> (out: U64x4)
        ensures
            out == Self::double_sboxed(s0, rc),
            internal_sbox_input(Self::field(), 2, s0, rc) ==> internal_sbox_output(
                Self::field(),
                2,
                s0,
                rc,
                out,
            ),
    ;

    /// Apply the s-box: `x -> (x + rc)^s` to lane 0.
    fn scalar_internal_sbox(s0: U64x4, rc: u32) -> (out: U64x4)
        ensures
            out == Self::scalar_sboxed(s0, rc),
            internal_sbox_input(Self::field(), 1, s0, rc) ==> internal_sbox_output(
                Self::field(),
                1,
                s0,
                rc,
                out,
            ),
    ;

    /// Three times the prime, in every lane.
    const PACKED_3XPRIME: U64x4;
}

/// The arithmetic of one field on tensors of one height.
pub trait Poseidon2AVX2Methods<const HEIGHT: usize>: Clone + Sync + Poseidon2AVX2Helpers {
    /// The field elements from which internal round constants are made.
    type Field;

    /// The data that are permuted.
    type InputOutput;

    /// The field elements, one for each element of an instance, from which external round
    /// constants are made.
    type ExternalConstantsInput;

    /// The instances that `input` holds.
    spec fn input_instances(input: Self::InputOutput) -> Instances;

    /// The data that hold the given instances.
    spec fn output_of(instances: Instances) -> Self::InputOutput;

    /// The round constants that `input` holds.
    spec fn external_constants(input: Self::ExternalConstantsInput) -> Instance;

    /// The round constant that `input` holds.
    spec fn internal_constant(input: Self::Field) -> u32;

    /// The two conversions fit together: the data made from canonical instances hold them.
    proof fn conversion_facts(data: Instances)
        requires
            canonical_instances(HEIGHT, Self::field().prime, data),
        ensures
            Self::input_instances(Self::output_of(data)) == data,
    ;

    /// [`Self::INTERNAL_SHIFTS`] holds the same shifts for every instance, and with them no
    /// element of an internal round overflows. The shift of element 0 is not used.
    proof fn shift_facts()
        ensures
            forall|k: int, i: int|
                0 <= k < instances(HEIGHT) && 1 <= i < width(HEIGHT)
                    ==> #[trigger] Self::INTERNAL_SHIFTS@[k][i] <= 29
                    && Self::INTERNAL_SHIFTS@[k][i] == Self::INTERNAL_SHIFTS@[0][i],
    ;

    /// Brings data into the layout of a tensor, one element of 32 bits to a lane.
    fn from_input(input: Self::InputOutput) -> (out: Packed64bitM31Tensor<HEIGHT>)
        ensures
            out@ == Self::input_instances(input),
            out.all_below(radix()),
    ;

    /// Brings a tensor back into the form of the data.
    fn to_output(output: Packed64bitM31Tensor<HEIGHT>) -> (out: Self::InputOutput)
        ensures
            out == Self::output_of(output@),
    ;

    /// Converts a set of external constants into the right form: every instance gets the same,
    /// in canonical form.
    fn manipulate_external_constants(input: Self::ExternalConstantsInput) -> (out:
        Packed64bitM31Tensor<HEIGHT>)
        ensures
            forall|k: int|
                0 <= k < instances(HEIGHT) ==> #[trigger] out@[k] == Self::external_constants(
                    input,
                ),
            out.all_below(Self::field().prime),
    ;

    /// Given a field element, pulls out the integer stored inside.
    fn manipulate_internal_constants(input: Self::Field) -> (out: u32)
        ensures
            out == Self::internal_constant(input),
            out < Self::field().prime,
    ;

    /// Applies [`Poseidon2AVX2Helpers::full_reduce_vec`] to every row.
    fn full_reduce(state: &mut Packed64bitM31Tensor<HEIGHT>)
        requires
            old(state).all_below(radix() * Self::field().prime),
        ensures
            forall|h: int, r: int, c: int|
                0 <= h < HEIGHT && in_block(r, c) ==> #[trigger] final(state).at(h, r, c)
                    == monty_reduce(old(state).at(h, r, c) as int, Self::field().prime),
    {
        let mut h: usize = 0;
        while h < HEIGHT
            invariant
                h <= HEIGHT,
                old(state).all_below(radix() * Self::field().prime),
                forall|g: int, r: int, c: int|
                    0 <= g < h && in_block(r, c) ==> #[trigger] state.0[g][r][c] == monty_reduce(
                        old(state).at(g, r, c) as int,
                        Self::field().prime,
                    ),
                forall|g: int| h <= g < HEIGHT ==> #[trigger] state.0[g] == old(state).0[g],
            decreases HEIGHT - h,
        {
            let mat: [U64x4; 4] = state.0[h];
            assert forall|r: int, c: int| in_block(r, c) implies #[trigger] mat[r][c] < radix()
                * Self::field().prime by {
                assert(old(state).at(h as int, r, c) < radix() * Self::field().prime);
            }
            let out: [U64x4; 4] = [
                Self::full_reduce_vec(mat[0]),
                Self::full_reduce_vec(mat[1]),
                Self::full_reduce_vec(mat[2]),
                Self::full_reduce_vec(mat[3]),
            ];
            assert forall|r: int, c: int| in_block(r, c) implies #[trigger] out[r][c]
                == monty_reduce(mat[r][c] as int, Self::field().prime) by {
                Self::field_facts();
                lemma_odd_prime(Self::field().prime);
                assert(out[r][c] < Self::field().prime && congruent(
                    out[r][c] * radix(),
                    mat[r][c] as int,
                    Self::field().prime,
                ));
                lemma_small_mod(out[r][c] as nat, Self::field().prime as nat);
                lemma_monty_reduce_unique(
                    mat[r][c] as int,
                    out[r][c] as int,
                    Self::field().prime,
                );
            }
            state.0[h] = out;
            h += 1;
        }
    }

    /// Applies [`Poseidon2AVX2Helpers::partial_reduce_vec`] to every row.
    fn partial_reduce(state: &mut Packed64bitM31Tensor<HEIGHT>)
        requires
            old(state).all_below(radix() * Self::field().prime),
        ensures
            forall|h: int, r: int|
                0 <= h < HEIGHT && 0 <= r < 4 ==> #[trigger] final(state).0[h][r]
                    == Self::partially_reduced(old(state).0[h][r]),
            final(state).all_below(2 * Self::field().prime),
            forall|h: int, r: int, c: int|
                0 <= h < HEIGHT && in_block(r, c) ==> (#[trigger] final(state).at(h, r, c)) as int
                    % Self::field().prime == monty_reduce(
                    old(state).at(h, r, c) as int,
                    Self::field().prime,
                ),
    {
        let mut h: usize = 0;
        while h < HEIGHT
            invariant
                h <= HEIGHT,
                old(state).all_below(radix() * Self::field().prime),
                forall|g: int, r: int|
                    0 <= g < h && 0 <= r < 4 ==> #[trigger] state.0[g][r]
                        == Self::partially_reduced(old(state).0[g][r]),
                forall|g: int, r: int, c: int|
                    0 <= g < h && in_block(r, c) ==> #[trigger] state.0[g][r][c] < 2
                        * Self::field().prime && state.0[g][r][c] as int % Self::field().prime
                        == monty_reduce(old(state).at(g, r, c) as int, Self::field().prime),
                forall|g: int| h <= g < HEIGHT ==> #[trigger] state.0[g] == old(state).0[g],
            decreases HEIGHT - h,
        {
            let mat: [U64x4; 4] = state.0[h];
            assert forall|r: int, c: int| in_block(r, c) implies #[trigger] mat[r][c] < radix()
                * Self::field().prime by {
                assert(old(state).at(h as int, r, c) < radix() * Self::field().prime);
            }
            let out: [U64x4; 4] = [
                Self::partial_reduce_vec(mat[0]),
                Self::partial_reduce_vec(mat[1]),
                Self::partial_reduce_vec(mat[2]),
                Self::partial_reduce_vec(mat[3]),
            ];
            assert forall|r: int, c: int| in_block(r, c) implies #[trigger] out[r][c] < 2
                * Self::field().prime && out[r][c] as int % Self::field().prime == monty_reduce(
                mat[r][c] as int,
                Self::field().prime,
            ) by {
                Self::field_facts();
                lemma_odd_prime(Self::field().prime);
                assert(out[r][c] < 2 * Self::field().prime && congruent(
                    out[r][c] * radix(),
                    mat[r][c] as int,
                    Self::field().prime,
                ));
                lemma_monty_reduce_unique(
                    mat[r][c] as int,
                    out[r][c] as int,
                    Self::field().prime,
                );
            }
            state.0[h] = out;
            h += 1;
        }
    }

    /// Applies [`Poseidon2AVX2Helpers::joint_sbox_vec`] to every row.
    fn joint_sbox(state: &mut Packed64bitM31Tensor<HEIGHT>)
        requires
            old(state).all_below(Self::field().prime),
        ensures
            forall|h: int, r: int|
                0 <= h < HEIGHT && 0 <= r < 4 ==> #[trigger] final(state).0[h][r]
                    == Self::joint_sboxed(old(state).0[h][r]),
            final(state).all_below(2 * radix()),
            forall|h: int, r: int, c: int|
                0 <= h < HEIGHT && in_block(r, c) ==> congruent(
                    #[trigger] final(state).at(h, r, c) as int,
                    Self::field().sbox(old(state).at(h, r, c) as int),
                    Self::field().prime,
                ),
    {
        let mut h: usize = 0;
        while h < HEIGHT
            invariant
                h <= HEIGHT,
                old(state).all_below(Self::field().prime),
                forall|g: int, r: int|
                    0 <= g < h && 0 <= r < 4 ==> #[trigger] state.0[g][r] == Self::joint_sboxed(
                        old(state).0[g][r],
                    ),
                forall|g: int, r: int, c: int|
                    0 <= g < h && in_block(r, c) ==> (#[trigger] state.0[g][r][c]) < 2 * radix()
                        && congruent(
                        state.0[g][r][c] as int,
                        Self::field().sbox(old(state).at(g, r, c) as int),
                        Self::field().prime,
                    ),
                forall|g: int| h <= g < HEIGHT ==> #[trigger] state.0[g] == old(state).0[g],
            decreases HEIGHT - h,
        {
            let mat: [U64x4; 4] = state.0[h];
            assert forall|r: int, c: int| in_block(r, c) implies #[trigger] mat[r][c]
                < Self::field().prime by {
                assert(old(state).at(h as int, r, c) < Self::field().prime);
            }
            state.0[h] = [
                Self::joint_sbox_vec(mat[0]),
                Self::joint_sbox_vec(mat[1]),
                Self::joint_sbox_vec(mat[2]),
                Self::joint_sbox_vec(mat[3]),
            ];
            h += 1;
        }
    }

    /// Applies the s-box of the internal rounds to the elements 0 of the instances: the scalar one
    /// in height 1, the double one in heights 2 and 3, and the quad one in height 4.
    fn internal_sbox(s0: U64x4, rc: u32) -> (out: U64x4)
        requires
            supported(HEIGHT),
        ensures
            out == internal_sboxed::<Self>(HEIGHT, s0, rc),
            internal_sbox_input(Self::field(), HEIGHT, s0, rc) ==> internal_sbox_output(
                Self::field(),
                HEIGHT,
                s0,
                rc,
                out,
            ),
    {
        if HEIGHT == 1 {
            Self::scalar_internal_sbox(s0, rc)
        } else if HEIGHT == 2 || HEIGHT == 3 {
            Self::double_internal_sbox(s0, rc)
        } else {
            Self::quad_internal_sbox(s0, rc)
        }
    }

    /// The matrix of the internal linear layer: the exponents of its diagonal elements, arranged
    /// as the elements of the instances are.
    const INTERNAL_SHIFTS: Packed64bitM31Tensor<HEIGHT>;
}

} // verus!
