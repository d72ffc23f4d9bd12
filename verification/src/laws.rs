//! What holds of the operations together.
use crate::bijection::{canonical, internal_layer_invertible};
use crate::external::instance_constants;
use crate::field::all_congruent;
use crate::helpers::{canonical_instances, Poseidon2AVX2Methods};
use crate::lanes::{wrap, U64x4};
use crate::layout::{
    block_of, element_at, instance_at, instances, lane_of, lemma_element_of_place,
    lemma_place_of_element, row_of, supported, width,
};
use crate::model::{
    add_column_sums, external_layer, internal_layer, lemma_add_column_sums_bounds, FieldModel,
};
use crate::permutation::Poseidon2AVX2;
use crate::tensor::{aes_at, in_block, Packed64bitM31Tensor};
use vstd::prelude::*;

verus! {

/// The instances fill the tensor: every place belongs to exactly one element of one instance.
pub proof fn law_instances_fill_tensor(height: usize, h: int, r: int, c: int, k: int, i: int)
    requires
        supported(height),
        0 <= h < height,
        in_block(r, c),
        0 <= k < instances(height),
        0 <= i < width(height),
    ensures
        instances(height) * width(height) == 16 * height,
        (block_of(height, i) == h && row_of(i) == r && lane_of(height, k, i) == c) <==> (k
            == instance_at(height, c) && i == element_at(height, h, r, c)),
{
    lemma_place_of_element(height, k, i);
    lemma_element_of_place(height, h, r, c);
}

/// A tensor is determined by its instances.
pub proof fn law_instances_determine_tensor<const HEIGHT: usize>(
    a: Packed64bitM31Tensor<HEIGHT>,
    b: Packed64bitM31Tensor<HEIGHT>,
)
    requires
        supported(HEIGHT),
        a@ == b@,
    ensures
        a == b,
{
    assert forall|h: int, r: int, c: int| 0 <= h < HEIGHT && in_block(r, c) implies #[trigger] a.at(
        h,
        r,
        c,
    ) == b.at(h, r, c) by {
        lemma_element_of_place(HEIGHT, h, r, c);
        a.lemma_view_at(instance_at(HEIGHT, c), element_at(HEIGHT, h, r, c));
        b.lemma_view_at(instance_at(HEIGHT, c), element_at(HEIGHT, h, r, c));
    }
    lemma_same_lanes(a, b);
}

proof fn lemma_same_lanes<const HEIGHT: usize>(
    a: Packed64bitM31Tensor<HEIGHT>,
    b: Packed64bitM31Tensor<HEIGHT>,
)
    requires
        forall|h: int, r: int, c: int|
            0 <= h < HEIGHT && in_block(r, c) ==> #[trigger] a.at(h, r, c) == b.at(h, r, c),
    ensures
        a == b,
{
    assert forall|h: int| 0 <= h < HEIGHT implies a.0[h] == b.0[h] by {
        assert forall|r: int| 0 <= r < 4 implies a.0[h][r] == b.0[h][r] by {
            assert forall|c: int| 0 <= c < 4 implies a.0[h][r][c] == b.0[h][r][c] by {
                assert(a.at(h, r, c) == b.at(h, r, c));
            }
            assert(a.0[h][r] =~= b.0[h][r]);
        }
        assert(a.0[h] =~= b.0[h]);
    }
    assert(a.0 =~= b.0);
}

/// Where the element in block `h`, row `r` and lane `c` stands when the lanes are read in memory
/// order as one instance after the other.
spec fn consecutive_place(height: usize, h: int, r: int, c: int) -> (int, int) {
    let n = 16 * h + 4 * r + c;
    if height == 3 {
        (n / 24, n % 24)
    } else {
        (h, 4 * r + c)
    }
}

proof fn lemma_consecutive_place<const HEIGHT: usize>(
    t: Packed64bitM31Tensor<HEIGHT>,
    h: int,
    r: int,
    c: int,
)
    requires
        supported(HEIGHT),
        0 <= h < HEIGHT,
        in_block(r, c),
    ensures
        ({
            let (k, i) = consecutive_place(HEIGHT, h, r, c);
            &&& 0 <= k < instances(HEIGHT)
            &&& 0 <= i < width(HEIGHT)
            &&& t.consecutive()[k][i] == t.at(h, r, c)
        }),
{
    let (k, i) = consecutive_place(HEIGHT, h, r, c);
    let n = 16 * h + 4 * r + c;
    if HEIGHT == 3 {
        assert(width(HEIGHT) * k + i == 24 * k + i);
        assert(24 * k + i == n);
    } else {
        assert(width(HEIGHT) * k + i == 16 * k + i);
    }
    assert(n / 16 == h);
    assert(n / 4 == 4 * h + r);
    assert((4 * h + r) % 4 == r);
    assert(n % 4 == c);
    assert(t.flat()[n] == t.at(h, r, c));
}

/// A tensor is determined by its lanes in memory order, read as one instance after the other.
pub proof fn law_consecutive_determines_tensor<const HEIGHT: usize>(
    a: Packed64bitM31Tensor<HEIGHT>,
    b: Packed64bitM31Tensor<HEIGHT>,
)
    requires
        supported(HEIGHT),
        a.consecutive() == b.consecutive(),
    ensures
        a == b,
{
    assert forall|h: int, r: int, c: int| 0 <= h < HEIGHT && in_block(r, c) implies #[trigger] a.at(
        h,
        r,
        c,
    ) == b.at(h, r, c) by {
        lemma_consecutive_place(a, h, r, c);
        lemma_consecutive_place(b, h, r, c);
    }
    lemma_same_lanes(a, b);
}

/// `shuffle_data_inverse` undoes `shuffle_data`: if the first takes `data` to `shuffled` and the
/// second takes `shuffled` to `back`, then `back` is `data`.
pub proof fn law_shuffle_inverse_undoes_shuffle<const HEIGHT: usize>(
    data: Packed64bitM31Tensor<HEIGHT>,
    shuffled: Packed64bitM31Tensor<HEIGHT>,
    back: Packed64bitM31Tensor<HEIGHT>,
)
    requires
        supported(HEIGHT),
        shuffled@ == data.consecutive(),
        back.consecutive() == shuffled@,
    ensures
        back == data,
{
    law_consecutive_determines_tensor(back, data);
}

/// `shuffle_data` undoes `shuffle_data_inverse`.
pub proof fn law_shuffle_undoes_shuffle_inverse<const HEIGHT: usize>(
    data: Packed64bitM31Tensor<HEIGHT>,
    unshuffled: Packed64bitM31Tensor<HEIGHT>,
    back: Packed64bitM31Tensor<HEIGHT>,
)
    requires
        supported(HEIGHT),
        unshuffled.consecutive() == data@,
        back@ == unshuffled.consecutive(),
    ensures
        back == data,
{
    law_instances_determine_tensor(back, data);
}

/// Transposing twice changes nothing.
pub proof fn law_transpose_twice(m: [U64x4; 4], once: [U64x4; 4], twice: [U64x4; 4])
    requires
        forall|r: int, c: int| in_block(r, c) ==> #[trigger] once[r][c] == m[c][r],
        forall|r: int, c: int| in_block(r, c) ==> #[trigger] twice[r][c] == once[c][r],
    ensures
        twice == m,
{
    assert forall|r: int| 0 <= r < 4 implies twice[r] == m[r] by {
        assert forall|c: int| 0 <= c < 4 implies twice[r][c] == m[r][c] by {
            assert(twice[r][c] == once[c][r]);
        }
        assert(twice[r] =~= m[r]);
    }
    assert(twice =~= m);
}

/// If all elements are at most `bound`, and `bound` is below `2^61`, then `mat_mul_aes` does not
/// overflow, and its results are at most `7 * bound`.
pub proof fn law_mat_mul_aes_bounds<const HEIGHT: usize>(
    state: Packed64bitM31Tensor<HEIGHT>,
    bound: u64,
    h: int,
    r: int,
    c: int,
)
    requires
        state.all_below(bound + 1),
        bound < 0x2000_0000_0000_0000,
        0 <= h < HEIGHT,
        in_block(r, c),
    ensures
        wrap(aes_at(state.0[h], r, c)) == aes_at(state.0[h], r, c),
        0 <= aes_at(state.0[h], r, c) <= 7 * bound,
{
    assert(state.at(h, r, c) < bound + 1);
    assert(state.at(h, (r + 1) % 4, c) < bound + 1);
    assert(state.at(h, (r + 2) % 4, c) < bound + 1);
    assert(state.at(h, (r + 3) % 4, c) < bound + 1);
}

/// If all elements are at most `bound`, then the results of `right_mat_mul_i_plus_1` are at most
/// `5 * bound`, or `7 * bound` in height 3, and where that fits into a lane it does not overflow.
pub proof fn law_right_mat_mul_bounds<const HEIGHT: usize>(
    state: Packed64bitM31Tensor<HEIGHT>,
    bound: u64,
    k: int,
    i: int,
)
    requires
        supported(HEIGHT),
        state.all_below(bound + 1),
        0 <= k < instances(HEIGHT),
        0 <= i < width(HEIGHT),
    ensures
        HEIGHT != 3 ==> 0 <= add_column_sums(state@[k])[i] <= 5 * bound,
        HEIGHT == 3 ==> 0 <= add_column_sums(state@[k])[i] <= 7 * bound,
        add_column_sums(state@[k])[i] <= u64::MAX ==> wrap(add_column_sums(state@[k])[i])
            == add_column_sums(state@[k])[i],
{
    state.lemma_all_below(bound + 1);
    lemma_add_column_sums_bounds(state@[k], bound as int);
    if HEIGHT == 3 {
        assert(0 <= add_column_sums(state@[k])[i] <= 7 * bound);
    } else {
        assert(0 <= add_column_sums(state@[k])[i] <= 5 * bound);
    }
}

/// If all elements are at most `bound`, then the results of `vec_sum` are at most
/// `4 * HEIGHT * bound`, and where that fits into a lane it does not overflow.
pub proof fn law_vec_sum_bounds<const HEIGHT: usize>(
    state: Packed64bitM31Tensor<HEIGHT>,
    bound: u64,
    c: int,
)
    requires
        state.all_below(bound + 1),
        0 <= c < 4,
    ensures
        0 <= state.lane_sum(c, HEIGHT as nat) <= 4 * HEIGHT * bound,
        4 * HEIGHT * bound <= u64::MAX ==> wrap(state.lane_sum(c, HEIGHT as nat))
            == state.lane_sum(c, HEIGHT as nat),
{
    state.lemma_lane_sum_bounds(c, HEIGHT as nat, bound as int);
}

/// It makes no difference whether external rounds start with the linear layer and one more layer
/// follows them, or whether one layer goes ahead and the rounds end with it.
pub proof fn law_rounds_can_be_rotated(field: FieldModel, constants: Seq<Seq<int>>, x: Seq<int>)
    ensures
        external_layer(field.external_rounds(constants, x)) == field.unrotated_rounds(
            constants,
            external_layer(x),
        ),
    decreases constants.len(),
{
    if constants.len() > 0 {
        law_rounds_can_be_rotated(field, constants.drop_last(), x);
    }
}

/// Unrotated rounds, with the first of them split off.
proof fn lemma_unrotated_rounds_first(field: FieldModel, constants: Seq<Seq<int>>, x: Seq<int>)
    requires
        constants.len() > 0,
    ensures
        field.unrotated_rounds(constants, x) == field.unrotated_rounds(
            constants.skip(1),
            external_layer(field.constants_and_sbox(constants[0], x)),
        ),
    decreases constants.len(),
{
    let rest = constants.drop_last();
    if rest.len() == 0 {
        reveal_with_fuel(FieldModel::unrotated_rounds, 2);
        assert(constants.skip(1) =~= Seq::empty());
    } else {
        lemma_unrotated_rounds_first(field, rest, x);
        assert(constants.skip(1).drop_last() =~= rest.skip(1));
    }
}

/// The final external rounds are whole rounds in the order of round constants, s-boxes, linear
/// layer.
pub proof fn law_final_rounds_are_unrotated(
    field: FieldModel,
    constants: Seq<Seq<int>>,
    x: Seq<int>,
)
    requires
        constants.len() > 0,
    ensures
        field.final_rounds(constants, x) == field.unrotated_rounds(constants, x),
{
    law_rounds_can_be_rotated(
        field,
        constants.skip(1),
        field.constants_and_sbox(constants[0], x),
    );
    lemma_unrotated_rounds_first(field, constants, x);
}

/// The permutation gives canonical elements.
pub proof fn law_permuted_is_canonical<const HEIGHT: usize, P2AVX2: Poseidon2AVX2Methods<HEIGHT>>(
    permutation: Poseidon2AVX2<HEIGHT, P2AVX2>,
    k: int,
    x: Seq<int>,
)
    requires
        x.len() == width(HEIGHT),
    ensures
        permutation.permuted_instance(k, x).len() == width(HEIGHT),
        canonical(permutation.permuted_instance(k, x), P2AVX2::field().prime),
{
    P2AVX2::field_facts();
    P2AVX2::field().lemma_poseidon2_canonical(
        P2AVX2::INTERNAL_SHIFTS@[0],
        instance_constants(permutation.initial_constants(), k),
        permutation.internal_constants(),
        instance_constants(permutation.final_constants(), k),
        x,
    );
}

/// The permutation does not see in which form its elements are: elements that are the same modulo
/// the prime give the same result.
pub proof fn law_permuted_depends_on_residues<
    const HEIGHT: usize,
    P2AVX2: Poseidon2AVX2Methods<HEIGHT>,
>(permutation: Poseidon2AVX2<HEIGHT, P2AVX2>, k: int, x: Seq<int>, y: Seq<int>)
    requires
        x.len() == width(HEIGHT),
        all_congruent(x, y, P2AVX2::field().prime),
    ensures
        permutation.permuted_instance(k, x) == permutation.permuted_instance(k, y),
{
    P2AVX2::field_facts();
    let field = P2AVX2::field();
    let constants = instance_constants(permutation.initial_constants(), k);
    field.lemma_initial_rounds_congruent(constants, x, y);
}

/// Shifts that agree apart from the first, which no layer uses, give the same internal rounds.
proof fn lemma_internal_rounds_shifts(
    field: FieldModel,
    shifts: Seq<int>,
    others: Seq<int>,
    constants: Seq<u32>,
    x: Seq<int>,
)
    requires
        x.len() > 0,
        forall|i: int| 1 <= i < x.len() ==> #[trigger] shifts[i] == others[i],
    ensures
        field.internal_rounds(shifts, constants, x) == field.internal_rounds(
            others,
            constants,
            x,
        ),
    decreases constants.len(),
{
    if constants.len() > 0 {
        let rest = constants.drop_last();
        lemma_internal_rounds_shifts(field, shifts, others, rest, x);
        let y = field.internal_rounds(shifts, rest, x);
        field.lemma_internal_rounds_len(shifts, rest, x);
        let z = y.update(0, field.internal_sbox(y[0] + constants.last()));
        assert(internal_layer(shifts, z) =~= internal_layer(others, z));
    }
}

/// Instances of the same width are permuted alike in tensors of whatever heights, and in
/// whatever place: the result is the same wherever the field, the shifts and the round constants
/// are. So to pack instances together and to permute commute.
pub proof fn law_heights_agree<
    const A: usize,
    const B: usize,
    PA: Poseidon2AVX2Methods<A>,
    PB: Poseidon2AVX2Methods<B>,
>(a: Poseidon2AVX2<A, PA>, b: Poseidon2AVX2<B, PB>, j: int, k: int, x: Seq<int>)
    requires
        width(A) == width(B),
        x.len() == width(A),
        PA::field() == PB::field(),
        forall|i: int|
            1 <= i < width(A) ==> #[trigger] PA::INTERNAL_SHIFTS@[0][i]
                == PB::INTERNAL_SHIFTS@[0][i],
        instance_constants(a.initial_constants(), j) == instance_constants(
            b.initial_constants(),
            k,
        ),
        a.internal_constants() == b.internal_constants(),
        instance_constants(a.final_constants(), j) == instance_constants(b.final_constants(), k),
    ensures
        a.permuted_instance(j, x) == b.permuted_instance(k, x),
{
    let field = PA::field();
    let constants = instance_constants(a.initial_constants(), j);
    field.lemma_external_rounds_len(constants, x);
    lemma_internal_rounds_shifts(
        field,
        PA::INTERNAL_SHIFTS@[0],
        PB::INTERNAL_SHIFTS@[0],
        a.internal_constants(),
        field.initial_rounds(constants, x),
    );
}

/// The permutation permutes the instances of data one by one: if `data` are canonical instances,
/// then what it makes of them holds, for each, what it makes of that instance alone.
pub proof fn law_instances_are_permuted_alone<
    const HEIGHT: usize,
    P2AVX2: Poseidon2AVX2Methods<HEIGHT>,
>(permutation: Poseidon2AVX2<HEIGHT, P2AVX2>, data: Seq<Seq<int>>, k: int)
    requires
        canonical_instances(HEIGHT, P2AVX2::field().prime, data),
        0 <= k < instances(HEIGHT),
    ensures
        P2AVX2::input_instances(permutation.permuted(P2AVX2::output_of(data)))[k]
            == permutation.permuted_instance(k, data[k]),
{
    P2AVX2::conversion_facts(data);
    let out = Seq::new(
        instances(HEIGHT),
        |j: int| permutation.permuted_instance(j, data[j]),
    );
    assert forall|j: int| 0 <= j < out.len() implies (#[trigger] out[j]).len() == width(HEIGHT) by {
        law_permuted_is_canonical(permutation, j, data[j]);
    }
    assert forall|j: int, i: int| 0 <= j < out.len() && 0 <= i < width(HEIGHT) implies 0
        <= #[trigger] out[j][i] < P2AVX2::field().prime by {
        law_permuted_is_canonical(permutation, j, data[j]);
    }
    P2AVX2::conversion_facts(out);
    assert(permutation.permuted(P2AVX2::output_of(data)) == P2AVX2::output_of(out)) by {
        assert(Seq::new(
            instances(HEIGHT),
            |j: int|
                permutation.permuted_instance(
                    j,
                    P2AVX2::input_instances(P2AVX2::output_of(data))[j],
                ),
        ) =~= out);
    }
}

/// The permutation is one to one: with an invertible internal matrix, no two instances of canonical
/// elements have the same result.
pub proof fn law_permutation_is_one_to_one<
    const HEIGHT: usize,
    P2AVX2: Poseidon2AVX2Methods<HEIGHT>,
>(permutation: Poseidon2AVX2<HEIGHT, P2AVX2>, k: int, x: Seq<int>, y: Seq<int>)
    requires
        internal_layer_invertible(
            P2AVX2::INTERNAL_SHIFTS@[0],
            width(HEIGHT),
            P2AVX2::field().prime,
        ),
        x.len() == width(HEIGHT),
        y.len() == width(HEIGHT),
        canonical(x, P2AVX2::field().prime),
        canonical(y, P2AVX2::field().prime),
        permutation.permuted_instance(k, x) == permutation.permuted_instance(k, y),
    ensures
        x == y,
{
    P2AVX2::field_facts();
    P2AVX2::field().lemma_poseidon2_injective(
        P2AVX2::INTERNAL_SHIFTS@[0],
        instance_constants(permutation.initial_constants(), k),
        permutation.internal_constants(),
        instance_constants(permutation.final_constants(), k),
        x,
        y,
    );
}

/// The permutation is onto: with an invertible internal matrix, every instance of canonical
/// elements is the result of one.
pub proof fn law_permutation_is_onto<const HEIGHT: usize, P2AVX2: Poseidon2AVX2Methods<HEIGHT>>(
    permutation: Poseidon2AVX2<HEIGHT, P2AVX2>,
    k: int,
    z: Seq<int>,
) -> (x: Seq<int>)
    requires
        internal_layer_invertible(
            P2AVX2::INTERNAL_SHIFTS@[0],
            width(HEIGHT),
            P2AVX2::field().prime,
        ),
        z.len() == width(HEIGHT),
        canonical(z, P2AVX2::field().prime),
    ensures
        x.len() == width(HEIGHT),
        canonical(x, P2AVX2::field().prime),
        permutation.permuted_instance(k, x) == z,
{
    P2AVX2::field_facts();
    P2AVX2::field().lemma_poseidon2_onto(
        P2AVX2::INTERNAL_SHIFTS@[0],
        instance_constants(permutation.initial_constants(), k),
        permutation.internal_constants(),
        instance_constants(permutation.final_constants(), k),
        z,
    )
}

} // verus!
