//! How the calls of the rounds compose.
//!
//! The laws speak of the tensors between the calls: `after` stands for what a call has made of
//! `before`, as its contract says. They hold in every lane, not only modulo the prime.
use crate::external::{
    all_canonical, external_input_fits, layer_fits, lemma_both_halves, lemma_external_input_fits,
    lemma_first_half, lemma_reduced,
};
use crate::field::{monty_reduce, radix};
use crate::helpers::Poseidon2AVX2Methods;
use crate::lanes::wrap;
use crate::laws::law_instances_determine_tensor;
use crate::layout::{instances, supported, width};
use crate::model::{add_column_sums, external_layer};
use crate::packed::{
    added, lemma_packed_final_rounds_add, lemma_packed_internal_rounds_add, lemma_packed_rotation,
    lemma_same_instances, lemma_sboxed, mixed, packed_external_round, packed_external_rounds,
    packed_final_rounds, packed_initial_rounds, packed_internal_round, packed_internal_rounds,
    views,
};
use crate::tensor::{aes_at, in_block, row_total, Packed64bitM31Tensor};
use vstd::prelude::*;

verus! {

/// `after` is what [`Packed64bitM31Tensor::mat_mul_aes`] makes of `before`.
pub open spec fn mat_mul_aes_gives<const HEIGHT: usize>(
    before: Packed64bitM31Tensor<HEIGHT>,
    after: Packed64bitM31Tensor<HEIGHT>,
) -> bool {
    forall|h: int, r: int, c: int|
        0 <= h < HEIGHT && in_block(r, c) ==> #[trigger] after.at(h, r, c) == wrap(
            aes_at(before.0[h], r, c),
        )
}

/// `after` is what [`Packed64bitM31Tensor::right_mat_mul_i_plus_1`] makes of `before`.
pub open spec fn right_mat_mul_gives<const HEIGHT: usize>(
    before: Packed64bitM31Tensor<HEIGHT>,
    after: Packed64bitM31Tensor<HEIGHT>,
) -> bool {
    forall|k: int, i: int|
        0 <= k < instances(HEIGHT) && 0 <= i < width(HEIGHT) ==> #[trigger] after@[k][i] == wrap(
            add_column_sums(before@[k])[i],
        )
}

/// `after` is what [`Packed64bitM31Tensor::add`] makes of `before` and `rhs`.
pub open spec fn add_gives<const HEIGHT: usize>(
    before: Packed64bitM31Tensor<HEIGHT>,
    rhs: Packed64bitM31Tensor<HEIGHT>,
    after: Packed64bitM31Tensor<HEIGHT>,
) -> bool {
    forall|h: int, r: int, c: int|
        0 <= h < HEIGHT && in_block(r, c) ==> #[trigger] after.at(h, r, c) == wrap(
            before.at(h, r, c) + rhs.at(h, r, c),
        )
}

/// `after` is what [`Poseidon2AVX2Methods::full_reduce`] makes of `before`.
pub open spec fn full_reduce_gives<const HEIGHT: usize>(
    prime: int,
    before: Packed64bitM31Tensor<HEIGHT>,
    after: Packed64bitM31Tensor<HEIGHT>,
) -> bool {
    forall|h: int, r: int, c: int|
        0 <= h < HEIGHT && in_block(r, c) ==> #[trigger] after.at(h, r, c) == monty_reduce(
            before.at(h, r, c) as int,
            prime,
        )
}

/// `after` is what [`Poseidon2AVX2Methods::joint_sbox`] makes of `before`.
pub open spec fn joint_sbox_gives<const HEIGHT: usize, P2AVX2: Poseidon2AVX2Methods<HEIGHT>>(
    before: Packed64bitM31Tensor<HEIGHT>,
    after: Packed64bitM31Tensor<HEIGHT>,
) -> bool {
    &&& after.all_below(2 * radix())
    &&& forall|h: int, r: int|
        0 <= h < HEIGHT && 0 <= r < 4 ==> #[trigger] after.0[h][r] == P2AVX2::joint_sboxed(
            before.0[h][r],
        )
}

/// [`Packed64bitM31Tensor::mat_mul_aes`] followed by
/// [`Packed64bitM31Tensor::right_mat_mul_i_plus_1`] is the external linear layer of every instance,
/// on states on which that fits into the lanes. On such states the second call is in order after
/// the first.
pub proof fn law_linear_layer_in_two_calls<const HEIGHT: usize>(
    state: Packed64bitM31Tensor<HEIGHT>,
    half: Packed64bitM31Tensor<HEIGHT>,
    after: Packed64bitM31Tensor<HEIGHT>,
)
    requires
        supported(HEIGHT),
        forall|k: int| 0 <= k < instances(HEIGHT) ==> #[trigger] layer_fits(state, k),
        mat_mul_aes_gives(state, half),
        right_mat_mul_gives(half, after),
    ensures
        HEIGHT == 1 ==> forall|r: int|
            0 <= r < 4 ==> #[trigger] row_total(half.0[0][r]) <= u64::MAX,
        after@ == mixed(state@),
{
    lemma_first_half(state, half);
    lemma_both_halves(state, half, after);
}

/// A state that an external round can take has a linear layer that fits into the lanes.
proof fn lemma_input_layer_fits<const HEIGHT: usize, P2AVX2: Poseidon2AVX2Methods<HEIGHT>>(
    constants: Seq<int>,
    state: Packed64bitM31Tensor<HEIGHT>,
    k: int,
)
    requires
        supported(HEIGHT),
        0 <= k < instances(HEIGHT),
        forall|i: int| 0 <= i < width(HEIGHT) ==> #[trigger] constants[i] >= 0,
        external_input_fits(P2AVX2::field(), constants, state@[k]),
    ensures
        layer_fits(state, k),
{
    P2AVX2::field_facts();
    assert forall|i: int| 0 <= i < width(HEIGHT) implies #[trigger] external_layer(state@[k])[i]
        <= u64::MAX by {
        assert(external_layer(state@[k])[i] + constants[i] < radix() * P2AVX2::field().prime);
        assert(constants[i] >= 0);
    }
}

/// A state behind the s-boxes has a linear layer that can be reduced, with canonical constants on
/// top.
proof fn lemma_sboxed_fits<const HEIGHT: usize, P2AVX2: Poseidon2AVX2Methods<HEIGHT>>(
    constants: Packed64bitM31Tensor<HEIGHT>,
    state: Packed64bitM31Tensor<HEIGHT>,
    k: int,
)
    requires
        supported(HEIGHT),
        0 <= k < instances(HEIGHT),
        constants.all_below(P2AVX2::field().prime),
        state.all_below(2 * radix()),
    ensures
        external_input_fits(P2AVX2::field(), constants@[k], state@[k]),
        external_input_fits(
            P2AVX2::field(),
            Seq::new(width(HEIGHT), |i: int| 0),
            state@[k],
        ),
{
    P2AVX2::field_facts();
    state.lemma_all_below(2 * radix());
    constants.lemma_all_below(P2AVX2::field().prime);
    lemma_external_input_fits(P2AVX2::field(), constants@[k], state@[k]);
    lemma_external_input_fits(
        P2AVX2::field(),
        Seq::new(width(HEIGHT), |i: int| 0),
        state@[k],
    );
}

/// The initial external rounds are a linear layer, the final external rounds with the same
/// constants, and a full reduction. All these calls are in order on every state that
/// [`crate::initial_external_rounds`] takes.
pub proof fn law_initial_rounds_by_final_rounds<
    const HEIGHT: usize,
    P2AVX2: Poseidon2AVX2Methods<HEIGHT>,
>(
    round_constants: Seq<Packed64bitM31Tensor<HEIGHT>>,
    state: Packed64bitM31Tensor<HEIGHT>,
    initial: Packed64bitM31Tensor<HEIGHT>,
    half: Packed64bitM31Tensor<HEIGHT>,
    layer: Packed64bitM31Tensor<HEIGHT>,
    rounds: Packed64bitM31Tensor<HEIGHT>,
    after: Packed64bitM31Tensor<HEIGHT>,
)
    requires
        supported(HEIGHT),
        round_constants.len() > 0,
        all_canonical(round_constants, P2AVX2::field().prime),
        forall|k: int|
            0 <= k < instances(HEIGHT) ==> external_input_fits(
                P2AVX2::field(),
                round_constants[0]@[k],
                #[trigger] state@[k],
            ),
        initial@ == packed_initial_rounds::<HEIGHT, P2AVX2>(views(round_constants), state@),
        mat_mul_aes_gives(state, half),
        right_mat_mul_gives(half, layer),
        rounds@ == packed_final_rounds::<HEIGHT, P2AVX2>(views(round_constants), layer@),
        rounds.all_below(49 * 2 * radix()),
        full_reduce_gives(P2AVX2::field().prime, rounds, after),
    ensures
        HEIGHT == 1 ==> forall|r: int|
            0 <= r < 4 ==> #[trigger] row_total(half.0[0][r]) <= u64::MAX,
        forall|k: int, i: int|
            0 <= k < instances(HEIGHT) && 0 <= i < width(HEIGHT) ==> #[trigger] layer@[k][i]
                + round_constants[0]@[k][i] < radix() * P2AVX2::field().prime,
        rounds.all_below(radix() * P2AVX2::field().prime),
        after == initial,
{
    let field = P2AVX2::field();
    P2AVX2::field_facts();
    assert forall|k: int| 0 <= k < instances(HEIGHT) implies #[trigger] layer_fits(state, k) by {
        assert(external_input_fits(field, round_constants[0]@[k], state@[k]));
        lemma_input_layer_fits::<HEIGHT, P2AVX2>(round_constants[0]@[k], state, k);
    }
    law_linear_layer_in_two_calls(state, half, layer);
    assert forall|k: int, i: int|
        0 <= k < instances(HEIGHT) && 0 <= i < width(HEIGHT) implies #[trigger] layer@[k][i]
        + round_constants[0]@[k][i] < radix() * field.prime by {
        assert(external_input_fits(field, round_constants[0]@[k], state@[k]));
        assert(layer@[k] == external_layer(state@[k]));
        assert(external_layer(state@[k])[i] + round_constants[0]@[k][i] < radix() * field.prime);
    }
    rounds.lemma_below_greater(49 * 2 * radix(), radix() * field.prime);
    lemma_packed_rotation::<HEIGHT, P2AVX2>(views(round_constants), state@);
    lemma_reduced(field, rounds, after);
    law_instances_determine_tensor(after, initial);
}

/// The states of a loop of [`crate::external::rotated_external_round`] over `round_constants`.
pub open spec fn rotated_rounds_give<const HEIGHT: usize, P2AVX2: Poseidon2AVX2Methods<HEIGHT>>(
    round_constants: Seq<Packed64bitM31Tensor<HEIGHT>>,
    states: Seq<Packed64bitM31Tensor<HEIGHT>>,
) -> bool {
    &&& states.len() == round_constants.len() + 1
    &&& forall|j: int|
        1 <= j < states.len() ==> (#[trigger] states[j])@ == packed_external_round::<
            HEIGHT,
            P2AVX2,
        >(round_constants[j - 1]@, states[j - 1]@) && states[j].all_below(2 * radix())
}

/// After `j` rounds of the loop.
proof fn lemma_rotated_rounds<const HEIGHT: usize, P2AVX2: Poseidon2AVX2Methods<HEIGHT>>(
    round_constants: Seq<Packed64bitM31Tensor<HEIGHT>>,
    states: Seq<Packed64bitM31Tensor<HEIGHT>>,
    j: int,
)
    requires
        rotated_rounds_give::<HEIGHT, P2AVX2>(round_constants, states),
        0 <= j <= round_constants.len(),
    ensures
        states[j]@ == packed_external_rounds::<HEIGHT, P2AVX2>(
            views(round_constants).take(j),
            states[0]@,
        ),
    decreases j,
{
    let done = views(round_constants).take(j);
    if j > 0 {
        lemma_rotated_rounds::<HEIGHT, P2AVX2>(round_constants, states, j - 1);
        assert(done.drop_last() =~= views(round_constants).take(j - 1));
        assert(done.last() == round_constants[j - 1]@);
        assert(states[j]@ == packed_external_round::<HEIGHT, P2AVX2>(
            round_constants[j - 1]@,
            states[j - 1]@,
        ));
    }
}

/// The initial external rounds are one call of [`crate::external::rotated_external_round`] for each
/// round constant, then a linear layer and a full reduction. All these calls are in order on every
/// state that [`crate::initial_external_rounds`] takes.
pub proof fn law_initial_rounds_by_single_rounds<
    const HEIGHT: usize,
    P2AVX2: Poseidon2AVX2Methods<HEIGHT>,
>(
    round_constants: Seq<Packed64bitM31Tensor<HEIGHT>>,
    states: Seq<Packed64bitM31Tensor<HEIGHT>>,
    initial: Packed64bitM31Tensor<HEIGHT>,
    half: Packed64bitM31Tensor<HEIGHT>,
    layer: Packed64bitM31Tensor<HEIGHT>,
    after: Packed64bitM31Tensor<HEIGHT>,
)
    requires
        supported(HEIGHT),
        all_canonical(round_constants, P2AVX2::field().prime),
        rotated_rounds_give::<HEIGHT, P2AVX2>(round_constants, states),
        forall|k: int|
            0 <= k < instances(HEIGHT) ==> external_input_fits(
                P2AVX2::field(),
                if round_constants.len() > 0 {
                    round_constants[0]@[k]
                } else {
                    Seq::new(width(HEIGHT), |i: int| 0)
                },
                #[trigger] states[0]@[k],
            ),
        initial@ == packed_initial_rounds::<HEIGHT, P2AVX2>(views(round_constants), states[0]@),
        mat_mul_aes_gives(states.last(), half),
        right_mat_mul_gives(half, layer),
        full_reduce_gives(P2AVX2::field().prime, layer, after),
    ensures
        forall|j: int, k: int|
            0 <= j < round_constants.len() && 0 <= k < instances(HEIGHT) ==> external_input_fits(
                P2AVX2::field(),
                round_constants[j]@[k],
                #[trigger] states[j]@[k],
            ),
        HEIGHT == 1 ==> forall|r: int|
            0 <= r < 4 ==> #[trigger] row_total(half.0[0][r]) <= u64::MAX,
        layer.all_below(radix() * P2AVX2::field().prime),
        after == initial,
{
    let field = P2AVX2::field();
    let n = round_constants.len() as int;
    let zeros: Seq<int> = Seq::new(width(HEIGHT), |i: int| 0);
    P2AVX2::field_facts();
    assert forall|j: int, k: int|
        0 <= j < n && 0 <= k < instances(HEIGHT) implies external_input_fits(
        field,
        round_constants[j]@[k],
        #[trigger] states[j]@[k],
    ) by {
        if j > 0 {
            assert(states[j].all_below(2 * radix()));
            assert(round_constants[j].all_below(field.prime));
            lemma_sboxed_fits::<HEIGHT, P2AVX2>(round_constants[j], states[j], k);
        } else {
            assert(external_input_fits(field, round_constants[0]@[k], states[0]@[k]));
        }
    }
    let last = states.last();
    assert forall|k: int| 0 <= k < instances(HEIGHT) implies external_input_fits(
        field,
        zeros,
        #[trigger] last@[k],
    ) by {
        if n > 0 {
            assert(states[n].all_below(2 * radix()));
            assert(round_constants[0].all_below(field.prime));
            lemma_sboxed_fits::<HEIGHT, P2AVX2>(round_constants[0], last, k);
        } else {
            assert(external_input_fits(field, zeros, states[0]@[k]));
        }
    }
    assert forall|k: int| 0 <= k < instances(HEIGHT) implies #[trigger] layer_fits(last, k) by {
        assert(external_input_fits(field, zeros, last@[k]));
        lemma_input_layer_fits::<HEIGHT, P2AVX2>(zeros, last, k);
    }
    law_linear_layer_in_two_calls(last, half, layer);
    assert forall|k: int, i: int|
        0 <= k < instances(HEIGHT) && 0 <= i < width(HEIGHT) implies #[trigger] layer@[k][i]
        < radix() * field.prime by {
        assert(external_input_fits(field, zeros, last@[k]));
        assert(layer@[k] == external_layer(last@[k]));
        assert(external_layer(last@[k])[i] + zeros[i] < radix() * field.prime);
    }
    layer.lemma_all_below(radix() * field.prime);
    lemma_rotated_rounds::<HEIGHT, P2AVX2>(round_constants, states, n);
    assert(views(round_constants).take(n) =~= views(round_constants));
    lemma_reduced(field, layer, after);
    law_instances_determine_tensor(after, initial);
}

/// The internal rounds with the constants `a` and then `b` are those with `a`, and then those with
/// `b`. Between the two calls the lanes are below `2^32`, as the second call needs.
pub proof fn law_internal_rounds_in_two_calls<
    const HEIGHT: usize,
    P2AVX2: Poseidon2AVX2Methods<HEIGHT>,
>(
    a: Seq<u32>,
    b: Seq<u32>,
    state: Packed64bitM31Tensor<HEIGHT>,
    whole: Packed64bitM31Tensor<HEIGHT>,
    first: Packed64bitM31Tensor<HEIGHT>,
    second: Packed64bitM31Tensor<HEIGHT>,
)
    requires
        (a + b).len() > 0 ==> supported(HEIGHT) && state.all_below(radix()),
        whole@ == packed_internal_rounds::<HEIGHT, P2AVX2>(a + b, state@),
        (a + b).len() == 0 ==> whole == state,
        first@ == packed_internal_rounds::<HEIGHT, P2AVX2>(a, state@),
        a.len() > 0 ==> first.all_below(2 * P2AVX2::field().prime),
        a.len() == 0 ==> first == state,
        second@ == packed_internal_rounds::<HEIGHT, P2AVX2>(b, first@),
        b.len() == 0 ==> second == first,
    ensures
        b.len() > 0 ==> first.all_below(radix()),
        second == whole,
{
    P2AVX2::field_facts();
    if a.len() > 0 {
        first.lemma_below_greater(2 * P2AVX2::field().prime, radix());
    }
    lemma_packed_internal_rounds_add::<HEIGHT, P2AVX2>(a, b, state@);
    if (a + b).len() > 0 {
        law_instances_determine_tensor(second, whole);
    }
}

/// The internal rounds with a single constant are one call of
/// [`crate::internal::internal_round`].
pub proof fn law_single_internal_round<
    const HEIGHT: usize,
    P2AVX2: Poseidon2AVX2Methods<HEIGHT>,
>(
    constant: u32,
    state: Packed64bitM31Tensor<HEIGHT>,
    rounds: Packed64bitM31Tensor<HEIGHT>,
    round: Packed64bitM31Tensor<HEIGHT>,
)
    requires
        supported(HEIGHT),
        rounds@ == packed_internal_rounds::<HEIGHT, P2AVX2>(seq![constant], state@),
        round@ == packed_internal_round::<HEIGHT, P2AVX2>(constant, state@),
    ensures
        rounds == round,
{
    assert(seq![constant].drop_last() =~= Seq::empty());
    reveal_with_fuel(packed_internal_rounds, 2);
    law_instances_determine_tensor(rounds, round);
}

/// The final external rounds with the constants `a` and then `b` are those with `a`, and then those
/// with `b`. The second call is in order on what the first returns.
pub proof fn law_final_rounds_in_two_calls<
    const HEIGHT: usize,
    P2AVX2: Poseidon2AVX2Methods<HEIGHT>,
>(
    a: Seq<Packed64bitM31Tensor<HEIGHT>>,
    b: Seq<Packed64bitM31Tensor<HEIGHT>>,
    state: Packed64bitM31Tensor<HEIGHT>,
    whole: Packed64bitM31Tensor<HEIGHT>,
    first: Packed64bitM31Tensor<HEIGHT>,
    second: Packed64bitM31Tensor<HEIGHT>,
)
    requires
        supported(HEIGHT),
        a.len() > 0,
        b.len() > 0,
        all_canonical(b, P2AVX2::field().prime),
        whole@ == packed_final_rounds::<HEIGHT, P2AVX2>(views(a + b), state@),
        first@ == packed_final_rounds::<HEIGHT, P2AVX2>(views(a), state@),
        first.all_below(49 * 2 * radix()),
        second@ == packed_final_rounds::<HEIGHT, P2AVX2>(views(b), first@),
    ensures
        forall|k: int, i: int|
            0 <= k < instances(HEIGHT) && 0 <= i < width(HEIGHT) ==> #[trigger] first@[k][i]
                + b[0]@[k][i] < radix() * P2AVX2::field().prime,
        second == whole,
{
    P2AVX2::field_facts();
    first.lemma_all_below(49 * 2 * radix());
    assert(b[0].all_below(P2AVX2::field().prime));
    b[0].lemma_all_below(P2AVX2::field().prime);
    assert forall|k: int, i: int|
        0 <= k < instances(HEIGHT) && 0 <= i < width(HEIGHT) implies #[trigger] first@[k][i]
        + b[0]@[k][i] < radix() * P2AVX2::field().prime by {
        assert(first@[k][i] < 49 * 2 * radix());
        assert(b[0]@[k][i] < P2AVX2::field().prime);
    }
    assert(views(a + b) =~= views(a) + views(b));
    lemma_packed_final_rounds_add::<HEIGHT, P2AVX2>(views(a), views(b), state@);
    law_instances_determine_tensor(second, whole);
}

/// The final external rounds with a single constant add it, reduce, apply the s-boxes and then the
/// linear layer. All these calls are in order on every state that
/// [`crate::final_external_rounds`] takes.
pub proof fn law_single_final_round<const HEIGHT: usize, P2AVX2: Poseidon2AVX2Methods<HEIGHT>>(
    constant: Packed64bitM31Tensor<HEIGHT>,
    state: Packed64bitM31Tensor<HEIGHT>,
    rounds: Packed64bitM31Tensor<HEIGHT>,
    sum: Packed64bitM31Tensor<HEIGHT>,
    residues: Packed64bitM31Tensor<HEIGHT>,
    powers: Packed64bitM31Tensor<HEIGHT>,
    half: Packed64bitM31Tensor<HEIGHT>,
    after: Packed64bitM31Tensor<HEIGHT>,
)
    requires
        supported(HEIGHT),
        constant.all_below(P2AVX2::field().prime),
        forall|k: int, i: int|
            0 <= k < instances(HEIGHT) && 0 <= i < width(HEIGHT) ==> #[trigger] state@[k][i]
                + constant@[k][i] < radix() * P2AVX2::field().prime,
        rounds@ == packed_final_rounds::<HEIGHT, P2AVX2>(views(seq![constant]), state@),
        add_gives(state, constant, sum),
        full_reduce_gives(P2AVX2::field().prime, sum, residues),
        joint_sbox_gives::<HEIGHT, P2AVX2>(residues, powers),
        mat_mul_aes_gives(powers, half),
        right_mat_mul_gives(half, after),
    ensures
        sum.all_below(radix() * P2AVX2::field().prime),
        residues.all_below(P2AVX2::field().prime),
        HEIGHT == 1 ==> forall|r: int|
            0 <= r < 4 ==> #[trigger] row_total(half.0[0][r]) <= u64::MAX,
        after == rounds,
{
    let field = P2AVX2::field();
    P2AVX2::field_facts();
    assert forall|k: int, i: int|
        0 <= k < instances(HEIGHT) && 0 <= i < width(HEIGHT) implies #[trigger] sum@[k][i]
        == state@[k][i] + constant@[k][i] by {
        sum.lemma_view_at(k, i);
        state.lemma_view_at(k, i);
        constant.lemma_view_at(k, i);
        assert(state@[k][i] + constant@[k][i] < radix() * field.prime);
    }
    sum.lemma_all_below(radix() * field.prime);
    lemma_same_instances(HEIGHT, sum@, added(constant@, state@));
    lemma_reduced(field, sum, residues);
    assert forall|h: int, r: int, c: int|
        0 <= h < HEIGHT && in_block(r, c) implies #[trigger] residues.at(h, r, c) < field.prime by {
    }
    lemma_sboxed::<HEIGHT, P2AVX2>(residues, powers);
    assert forall|k: int| 0 <= k < instances(HEIGHT) implies #[trigger] layer_fits(powers, k) by {
        lemma_sboxed_fits::<HEIGHT, P2AVX2>(constant, powers, k);
        lemma_input_layer_fits::<HEIGHT, P2AVX2>(constant@[k], powers, k);
    }
    law_linear_layer_in_two_calls(powers, half, after);
    let constants = views(seq![constant]);
    assert(constants.drop_last() =~= Seq::empty());
    assert(constants.last() == constant@);
    reveal_with_fuel(packed_final_rounds, 2);
    law_instances_determine_tensor(after, rounds);
}

} // verus!
