//! The external rounds of the permutation, on packed states.
use crate::field::{all_congruent, congruent, monty_reduce, radix};
use crate::helpers::Poseidon2AVX2Methods;
use crate::lanes::wrap;
use crate::layout::{
    block_of, instances, lane_of, lemma_place_of_element, row_of, supported, width,
};
use crate::model::{
    add_column_sums, aes_mix, all_at_most, column_sum, external_layer,
    lemma_add_column_sums_bounds, lemma_aes_mix_bounds, lemma_external_layer_congruent, FieldModel,
};
use crate::packed::{
    added, lemma_packed_final_rounds_add, lemma_packed_rotation, lemma_same_instances,
    lemma_sboxed, mixed, packed_external_round, packed_external_rounds, packed_final_rounds,
    packed_half_round, packed_initial_rounds, reduced, views,
};
use crate::tensor::{aes_at, in_block, row_total, Packed64bitM31Tensor};
use vstd::prelude::*;

verus! {

/// The external linear layer of instance `k` fits into the lanes.
pub open spec fn layer_fits<const HEIGHT: usize>(
    state: Packed64bitM31Tensor<HEIGHT>,
    k: int,
) -> bool {
    forall|i: int|
        0 <= i < width(HEIGHT) ==> #[trigger] external_layer(state@[k])[i] <= u64::MAX
}

/// No element grows beyond what the whole layer makes of it.
proof fn lemma_layer_fits<const HEIGHT: usize>(state: Packed64bitM31Tensor<HEIGHT>, k: int, i: int)
    requires
        supported(HEIGHT),
        0 <= k < instances(HEIGHT),
        0 <= i < width(HEIGHT),
        layer_fits(state, k),
    ensures
        0 <= aes_mix(state@[k])[i] <= u64::MAX,
        0 <= column_sum(aes_mix(state@[k]), i % 4, width(HEIGHT) / 4) <= u64::MAX,
        0 <= external_layer(state@[k])[i] <= u64::MAX,
{
    let x = state@[k];
    assert(all_at_most(x, u64::MAX as int));
    lemma_aes_mix_bounds(x, u64::MAX as int);
    lemma_add_column_sums_bounds(aes_mix(x), 7 * u64::MAX as int);
    assert(external_layer(x)[i] <= u64::MAX);
}

/// After the first half of the layer, one element.
proof fn lemma_after_aes_at<const HEIGHT: usize>(
    s0: Packed64bitM31Tensor<HEIGHT>,
    s1: Packed64bitM31Tensor<HEIGHT>,
    k: int,
    i: int,
)
    requires
        supported(HEIGHT),
        0 <= k < instances(HEIGHT),
        0 <= i < width(HEIGHT),
        layer_fits(s0, k),
        s1.at(block_of(HEIGHT, i), row_of(i), lane_of(HEIGHT, k, i)) == wrap(
            aes_at(s0.0[block_of(HEIGHT, i)], row_of(i), lane_of(HEIGHT, k, i)),
        ),
    ensures
        s1@[k][i] == aes_mix(s0@[k])[i],
{
    let m = aes_mix(s0@[k])[i];
    assert(0 <= m <= u64::MAX) by {
        lemma_layer_fits(s0, k, i);
    }
    assert(m == aes_at(s0.0[block_of(HEIGHT, i)], row_of(i), lane_of(HEIGHT, k, i))) by {
        s0.lemma_aes_view(k, i);
    }
    assert(s1@[k][i] == wrap(m)) by {
        s1.lemma_view_at(k, i);
    }
}

/// After the first half of the layer.
proof fn lemma_after_aes<const HEIGHT: usize>(
    s0: Packed64bitM31Tensor<HEIGHT>,
    s1: Packed64bitM31Tensor<HEIGHT>,
    k: int,
)
    requires
        supported(HEIGHT),
        0 <= k < instances(HEIGHT),
        layer_fits(s0, k),
        forall|h: int, r: int, c: int|
            0 <= h < HEIGHT && in_block(r, c) ==> #[trigger] s1.at(h, r, c) == wrap(
                aes_at(s0.0[h], r, c),
            ),
    ensures
        s1@[k] == aes_mix(s0@[k]),
{
    let x = s1@[k];
    let y = aes_mix(s0@[k]);
    assert forall|i: int| 0 <= i < width(HEIGHT) implies x[i] == y[i] by {
        lemma_place_of_element(HEIGHT, k, i);
        lemma_after_aes_at(s0, s1, k, i);
    }
    assert(x =~= y);
}

/// In height 1, the rows can be summed without overflow.
proof fn lemma_row_total_fits<const HEIGHT: usize>(
    s0: Packed64bitM31Tensor<HEIGHT>,
    s1: Packed64bitM31Tensor<HEIGHT>,
    r: int,
)
    requires
        HEIGHT == 1,
        layer_fits(s0, 0),
        s1@[0] == aes_mix(s0@[0]),
        0 <= r < 4,
    ensures
        row_total(s1.0[0][r]) <= u64::MAX,
{
    lemma_layer_fits(s0, 0, r);
    s1.lemma_column_sum(0, r);
    s1.lemma_row_sum(r, 0);
}

/// The first half of the layer can be followed by the second.
pub proof fn lemma_first_half<const HEIGHT: usize>(
    s0: Packed64bitM31Tensor<HEIGHT>,
    s1: Packed64bitM31Tensor<HEIGHT>,
)
    requires
        supported(HEIGHT),
        forall|k: int| 0 <= k < instances(HEIGHT) ==> #[trigger] layer_fits(s0, k),
        forall|h: int, r: int, c: int|
            0 <= h < HEIGHT && in_block(r, c) ==> #[trigger] s1.at(h, r, c) == wrap(
                aes_at(s0.0[h], r, c),
            ),
    ensures
        forall|k: int|
            0 <= k < instances(HEIGHT) ==> #[trigger] s1@[k] == aes_mix(s0@[k]),
        HEIGHT == 1 ==> forall|r: int|
            0 <= r < 4 ==> #[trigger] row_total(s1.0[0][r]) <= u64::MAX,
{
    assert forall|k: int| 0 <= k < instances(HEIGHT) implies #[trigger] s1@[k] == aes_mix(
        s0@[k],
    ) by {
        assert(layer_fits(s0, k));
        lemma_after_aes(s0, s1, k);
    }
    if HEIGHT == 1 {
        assert(layer_fits(s0, 0));
        assert(s1@[0] == aes_mix(s0@[0]));
        assert forall|r: int| 0 <= r < 4 implies #[trigger] row_total(s1.0[0][r]) <= u64::MAX by {
            lemma_row_total_fits(s0, s1, r);
        }
    }
}

/// The two halves make the layer.
pub proof fn lemma_both_halves<const HEIGHT: usize>(
    s0: Packed64bitM31Tensor<HEIGHT>,
    s1: Packed64bitM31Tensor<HEIGHT>,
    s2: Packed64bitM31Tensor<HEIGHT>,
)
    requires
        supported(HEIGHT),
        forall|k: int| 0 <= k < instances(HEIGHT) ==> #[trigger] layer_fits(s0, k),
        forall|k: int| 0 <= k < instances(HEIGHT) ==> #[trigger] s1@[k] == aes_mix(s0@[k]),
        forall|k: int, i: int|
            0 <= k < instances(HEIGHT) && 0 <= i < width(HEIGHT) ==> #[trigger] s2@[k][i] == wrap(
                add_column_sums(s1@[k])[i],
            ),
    ensures
        s2@ == mixed(s0@),
{
    assert forall|k: int| 0 <= k < instances(HEIGHT) implies #[trigger] s2@[k] == external_layer(
        s0@[k],
    ) by {
        assert(layer_fits(s0, k));
        assert(s1@[k] == aes_mix(s0@[k]));
        assert forall|i: int| 0 <= i < width(HEIGHT) implies s2@[k][i] == external_layer(
            s0@[k],
        )[i] by {
            lemma_layer_fits(s0, k, i);
            assert(s2@[k][i] == wrap(add_column_sums(s1@[k])[i]));
        }
        assert(s2@[k] =~= external_layer(s0@[k]));
    }
    assert(s2@ =~= mixed(s0@));
}

/// The external linear layer, on states on which it does not overflow.
fn external_linear_layer<const HEIGHT: usize>(state: &mut Packed64bitM31Tensor<HEIGHT>)
    requires
        supported(HEIGHT),
        forall|k: int| 0 <= k < instances(HEIGHT) ==> #[trigger] layer_fits(*old(state), k),
    ensures
        final(state)@ == mixed(old(state)@),
        forall|k: int|
            0 <= k < instances(HEIGHT) ==> #[trigger] final(state)@[k] == external_layer(
                old(state)@[k],
            ),
{
    let ghost s0 = *state;
    state.mat_mul_aes();
    let ghost s1 = *state;
    proof {
        lemma_first_half(s0, s1);
    }
    state.right_mat_mul_i_plus_1();
    proof {
        lemma_both_halves(s0, s1, *state);
    }
}

/// The round constants, the reduction and the s-boxes of an external round.
fn constants_and_sbox<const HEIGHT: usize, P2AVX2>(
    state: &mut Packed64bitM31Tensor<HEIGHT>,
    round_constant: &Packed64bitM31Tensor<HEIGHT>,
) where P2AVX2: Poseidon2AVX2Methods<HEIGHT>
    requires
        supported(HEIGHT),
        forall|k: int, i: int|
            0 <= k < instances(HEIGHT) && 0 <= i < width(HEIGHT) ==> #[trigger] old(state)@[k][i]
                + round_constant@[k][i] < radix() * P2AVX2::field().prime,
    ensures
        final(state)@ == packed_half_round::<HEIGHT, P2AVX2>(round_constant@, old(state)@),
        final(state).all_below(2 * radix()),
        forall|k: int|
            0 <= k < instances(HEIGHT) ==> all_congruent(
                #[trigger] final(state)@[k],
                P2AVX2::field().constants_and_sbox(round_constant@[k], old(state)@[k]),
                P2AVX2::field().prime,
            ),
{
    let ghost s0 = *state;
    let ghost field = P2AVX2::field();
    proof {
        P2AVX2::field_facts();
    }
    state.add(*round_constant);
    let ghost s1 = *state;
    proof {
        assert forall|k: int, i: int|
            0 <= k < instances(HEIGHT) && 0 <= i < width(HEIGHT) implies #[trigger] s1@[k][i]
            == s0@[k][i] + round_constant@[k][i] by {
            s1.lemma_view_at(k, i);
            s0.lemma_view_at(k, i);
            round_constant.lemma_view_at(k, i);
            assert(s0@[k][i] + round_constant@[k][i] < radix() * field.prime);
        }
        s1.lemma_all_below(radix() * field.prime);
        lemma_same_instances(HEIGHT, s1@, added(round_constant@, s0@));
    }
    P2AVX2::full_reduce(state);
    let ghost s2 = *state;
    proof {
        lemma_reduced(field, s1, s2);
        assert forall|h: int, r: int, c: int|
            0 <= h < HEIGHT && in_block(r, c) implies #[trigger] s2.at(h, r, c) < field.prime by {
        }
    }
    P2AVX2::joint_sbox(state);
    proof {
        lemma_sboxed::<HEIGHT, P2AVX2>(s2, *state);
        assert forall|k: int| 0 <= k < instances(HEIGHT) implies all_congruent(
            #[trigger] state@[k],
            field.constants_and_sbox(round_constant@[k], s0@[k]),
            field.prime,
        ) by {
            assert forall|i: int| 0 <= i < width(HEIGHT) implies congruent(
                #[trigger] state@[k][i],
                field.constants_and_sbox(round_constant@[k], s0@[k])[i],
                field.prime,
            ) by {
                state.lemma_view_at(k, i);
                s2.lemma_view_at(k, i);
                s1.lemma_view_at(k, i);
                assert(s1@[k][i] == s0@[k][i] + round_constant@[k][i]);
            }
        }
    }
}

/// With the round constants `constants`, the reduction of an external round gets elements that
/// it can take.
pub open spec fn external_input_fits(field: FieldModel, constants: Seq<int>, x: Seq<int>) -> bool {
    forall|i: int|
        0 <= i < x.len() ==> #[trigger] external_layer(x)[i] + constants[i] < radix() * field.prime
}

/// The linear layer keeps elements below `2^50` within what a reduction can take, with a
/// canonical constant on top.
pub proof fn lemma_external_input_fits(field: FieldModel, constants: Seq<int>, x: Seq<int>)
    requires
        field.prime > 0x4000_0000,
        x.len() == 16 || x.len() == 24,
        all_at_most(x, 0x3_ffff_ffff_ffff),
        forall|i: int| 0 <= i < x.len() ==> #[trigger] constants[i] <= field.prime,
    ensures
        external_input_fits(field, constants, x),
{
    lemma_aes_mix_bounds(x, 0x3_ffff_ffff_ffff);
    lemma_add_column_sums_bounds(aes_mix(x), 7 * 0x3_ffff_ffff_ffffint);
    assert forall|i: int| 0 <= i < x.len() implies #[trigger] external_layer(x)[i] + constants[i]
        < radix() * field.prime by {
        assert(constants[i] <= field.prime);
    }
}

/// A single external round, in the order of linear layer, round constants, s-boxes.
///
/// The elements of `state` do not need to be in canonical form: by [`lemma_external_input_fits`]
/// it is enough that they are below `2^50`. The elements of the result are below `2^33`.
pub fn rotated_external_round<const HEIGHT: usize, P2AVX2>(
    state: &mut Packed64bitM31Tensor<HEIGHT>,
    round_constant: &Packed64bitM31Tensor<HEIGHT>,
) where P2AVX2: Poseidon2AVX2Methods<HEIGHT>
    requires
        supported(HEIGHT),
        forall|k: int|
            0 <= k < instances(HEIGHT) ==> external_input_fits(
                P2AVX2::field(),
                round_constant@[k],
                #[trigger] old(state)@[k],
            ),
    ensures
        final(state)@ == packed_external_round::<HEIGHT, P2AVX2>(round_constant@, old(state)@),
        final(state).all_below(2 * radix()),
        forall|k: int|
            0 <= k < instances(HEIGHT) ==> all_congruent(
                #[trigger] final(state)@[k],
                P2AVX2::field().external_round(round_constant@[k], old(state)@[k]),
                P2AVX2::field().prime,
            ),
{
    let ghost s0 = *state;
    proof {
        P2AVX2::field_facts();
        assert forall|k: int| 0 <= k < instances(HEIGHT) implies #[trigger] layer_fits(s0, k) by {
            assert(external_input_fits(P2AVX2::field(), round_constant@[k], s0@[k]));
            assert forall|i: int| 0 <= i < width(HEIGHT) implies #[trigger] external_layer(
                s0@[k],
            )[i] <= u64::MAX by {
                assert(external_layer(s0@[k])[i] + round_constant@[k][i] < radix()
                    * P2AVX2::field().prime);
            }
        }
    }
    external_linear_layer(state);
    proof {
        assert forall|k: int, i: int|
            0 <= k < instances(HEIGHT) && 0 <= i < width(HEIGHT) implies #[trigger] state@[k][i]
            + round_constant@[k][i] < radix() * P2AVX2::field().prime by {
            assert(state@[k] == external_layer(s0@[k]));
            assert(external_input_fits(P2AVX2::field(), round_constant@[k], s0@[k]));
            assert(external_layer(s0@[k])[i] + round_constant@[k][i] < radix()
                * P2AVX2::field().prime);
        }
    }
    let ghost s1 = *state;
    constants_and_sbox::<HEIGHT, P2AVX2>(state, round_constant);
    proof {
        assert forall|k: int| 0 <= k < instances(HEIGHT) implies all_congruent(
            #[trigger] state@[k],
            P2AVX2::field().external_round(round_constant@[k], s0@[k]),
            P2AVX2::field().prime,
        ) by {
            assert(s1@[k] == external_layer(s0@[k]));
        }
    }
}

/// The constants that instance `k` has in each round.
pub open spec fn instance_constants<const HEIGHT: usize>(
    constants: Seq<Packed64bitM31Tensor<HEIGHT>>,
    k: int,
) -> Seq<Seq<int>> {
    Seq::new(constants.len(), |j: int| constants[j]@[k])
}

/// All round constants are below the prime.
pub open spec fn all_canonical<const HEIGHT: usize>(
    constants: Seq<Packed64bitM31Tensor<HEIGHT>>,
    prime: int,
) -> bool {
    forall|j: int| 0 <= j < constants.len() ==> (#[trigger] constants[j]).all_below(prime)
}

/// The external rounds with the constants from `start` on.
fn external_rounds_from<const HEIGHT: usize, P2AVX2>(
    state: &mut Packed64bitM31Tensor<HEIGHT>,
    round_constants: &[Packed64bitM31Tensor<HEIGHT>],
    start: usize,
) where P2AVX2: Poseidon2AVX2Methods<HEIGHT>
    requires
        supported(HEIGHT),
        start <= round_constants@.len(),
        all_canonical(round_constants@, P2AVX2::field().prime),
        start < round_constants@.len() ==> forall|k: int|
            0 <= k < instances(HEIGHT) ==> external_input_fits(
                P2AVX2::field(),
                round_constants@[start as int]@[k],
                #[trigger] old(state)@[k],
            ),
    ensures
        final(state)@ == packed_external_rounds::<HEIGHT, P2AVX2>(
            views(round_constants@).skip(start as int),
            old(state)@,
        ),
        start < round_constants@.len() ==> final(state).all_below(2 * radix()),
        start == round_constants@.len() ==> *final(state) == *old(state),
        forall|k: int|
            0 <= k < instances(HEIGHT) ==> all_congruent(
                #[trigger] final(state)@[k],
                P2AVX2::field().external_rounds(
                    instance_constants(round_constants@, k).skip(start as int),
                    old(state)@[k],
                ),
                P2AVX2::field().prime,
            ),
{
    let ghost s0 = *state;
    let ghost field = P2AVX2::field();
    let ghost rcs = round_constants@;
    let mut j: usize = start;
    proof {
        P2AVX2::field_facts();
        assert forall|k: int| 0 <= k < instances(HEIGHT) implies all_congruent(
            #[trigger] state@[k],
            field.external_rounds(
                instance_constants(rcs, k).subrange(start as int, j as int),
                s0@[k],
            ),
            field.prime,
        ) by {
        }
    }
    while j < round_constants.len()
        invariant
            supported(HEIGHT),
            field == P2AVX2::field(),
            field.prime > 0x4000_0000,
            rcs == round_constants@,
            start <= j <= rcs.len(),
            all_canonical(rcs, field.prime),
            start < rcs.len() ==> forall|k: int|
                0 <= k < instances(HEIGHT) ==> external_input_fits(
                    field,
                    rcs[start as int]@[k],
                    #[trigger] s0@[k],
                ),
            j == start ==> *state == s0,
            j > start ==> state.all_below(2 * radix()),
            state@ == packed_external_rounds::<HEIGHT, P2AVX2>(
                views(rcs).subrange(start as int, j as int),
                s0@,
            ),
            forall|k: int|
                0 <= k < instances(HEIGHT) ==> all_congruent(
                    #[trigger] state@[k],
                    field.external_rounds(
                        instance_constants(rcs, k).subrange(start as int, j as int),
                        s0@[k],
                    ),
                    field.prime,
                ),
        decreases rcs.len() - j,
    {
        let ghost before = *state;
        proof {
            if j > start {
                before.lemma_all_below(2 * radix());
                assert(rcs[j as int].all_below(field.prime));
                rcs[j as int].lemma_all_below(field.prime);
                assert forall|k: int| 0 <= k < instances(HEIGHT) implies external_input_fits(
                    field,
                    rcs[j as int]@[k],
                    #[trigger] before@[k],
                ) by {
                    lemma_external_input_fits(field, rcs[j as int]@[k], before@[k]);
                }
            }
        }
        rotated_external_round::<HEIGHT, P2AVX2>(state, &round_constants[j]);
        proof {
            let done = views(rcs).subrange(start as int, j + 1);
            assert(done.drop_last() =~= views(rcs).subrange(start as int, j as int));
            assert(done.last() == rcs[j as int]@);
            assert forall|k: int| 0 <= k < instances(HEIGHT) implies all_congruent(
                #[trigger] state@[k],
                field.external_rounds(
                    instance_constants(rcs, k).subrange(start as int, j + 1),
                    s0@[k],
                ),
                field.prime,
            ) by {
                let all = instance_constants(rcs, k);
                let done = all.subrange(start as int, j + 1);
                assert(done.drop_last() =~= all.subrange(start as int, j as int));
                assert(done.last() == rcs[j as int]@[k]);
                field.lemma_external_round_congruent(
                    rcs[j as int]@[k],
                    before@[k],
                    field.external_rounds(all.subrange(start as int, j as int), s0@[k]),
                );
            }
        }
        j += 1;
    }
    proof {
        assert(views(rcs).skip(start as int) =~= views(rcs).subrange(start as int, j as int));
        assert forall|k: int| 0 <= k < instances(HEIGHT) implies all_congruent(
            #[trigger] state@[k],
            field.external_rounds(instance_constants(rcs, k).skip(start as int), s0@[k]),
            field.prime,
        ) by {
            assert(instance_constants(rcs, k).skip(start as int) =~= instance_constants(
                rcs,
                k,
            ).subrange(start as int, j as int));
        }
    }
}

/// The initial set of external rounds: one external round for each element of `round_constants`,
/// then a linear layer and a reduction.
pub fn initial_external_rounds<const HEIGHT: usize, P2AVX2>(
    state: &mut Packed64bitM31Tensor<HEIGHT>,
    round_constants: &[Packed64bitM31Tensor<HEIGHT>],
) where P2AVX2: Poseidon2AVX2Methods<HEIGHT>
    requires
        supported(HEIGHT),
        all_canonical(round_constants@, P2AVX2::field().prime),
        forall|k: int|
            0 <= k < instances(HEIGHT) ==> external_input_fits(
                P2AVX2::field(),
                if round_constants@.len() > 0 {
                    round_constants@[0]@[k]
                } else {
                    Seq::new(width(HEIGHT), |i: int| 0)
                },
                #[trigger] old(state)@[k],
            ),
    ensures
        final(state)@ == packed_initial_rounds::<HEIGHT, P2AVX2>(
            views(round_constants@),
            old(state)@,
        ),
        forall|k: int|
            0 <= k < instances(HEIGHT) ==> #[trigger] final(state)@[k]
                == P2AVX2::field().initial_rounds(
                instance_constants(round_constants@, k),
                old(state)@[k],
            ),
{
    let ghost s0 = *state;
    let ghost field = P2AVX2::field();
    external_rounds_from::<HEIGHT, P2AVX2>(state, round_constants, 0);
    let ghost s1 = *state;
    proof {
        P2AVX2::field_facts();
        let zeros: Seq<int> = Seq::new(width(HEIGHT), |i: int| 0);
        assert forall|k: int| 0 <= k < instances(HEIGHT) implies external_input_fits(
            field,
            zeros,
            #[trigger] s1@[k],
        ) by {
            if round_constants@.len() > 0 {
                s1.lemma_all_below(2 * radix());
                lemma_external_input_fits(field, zeros, s1@[k]);
            } else {
                assert(external_input_fits(field, zeros, s0@[k]));
            }
        }
        assert forall|k: int, i: int|
            0 <= k < instances(HEIGHT) && 0 <= i < width(HEIGHT) implies #[trigger] external_layer(
            s1@[k],
        )[i] < radix() * field.prime by {
            assert(external_input_fits(field, zeros, s1@[k]));
            assert(external_layer(s1@[k])[i] + zeros[i] < radix() * field.prime);
        }
        assert forall|k: int| 0 <= k < instances(HEIGHT) implies #[trigger] layer_fits(s1, k) by {
            assert forall|i: int| 0 <= i < width(HEIGHT) implies #[trigger] external_layer(
                s1@[k],
            )[i] <= u64::MAX by {
                assert(external_layer(s1@[k])[i] < radix() * field.prime);
            }
        }
    }
    external_linear_layer(state);
    let ghost s2 = *state;
    proof {
        assert forall|k: int, i: int|
            0 <= k < instances(HEIGHT) && 0 <= i < width(HEIGHT) implies #[trigger] s2@[k][i]
            < radix() * field.prime by {
            assert(s2@[k] == external_layer(s1@[k]));
            assert(external_layer(s1@[k])[i] < radix() * field.prime);
        }
        s2.lemma_all_below(radix() * field.prime);
    }
    P2AVX2::full_reduce(state);
    proof {
        lemma_reduced(field, s2, *state);
        assert(views(round_constants@).skip(0) =~= views(round_constants@));
        assert forall|k: int| 0 <= k < instances(HEIGHT) implies #[trigger] state@[k]
            == field.initial_rounds(instance_constants(round_constants@, k), s0@[k]) by {
            let rcs = instance_constants(round_constants@, k);
            lemma_reduced_instance(field, s2, *state, k);
            assert(s2@[k] == external_layer(s1@[k]));
            assert(rcs.skip(0) =~= rcs);
            assert(all_congruent(s1@[k], field.external_rounds(rcs, s0@[k]), field.prime));
            lemma_external_layer_congruent(
                s1@[k],
                field.external_rounds(rcs, s0@[k]),
                field.prime,
            );
            field.lemma_reduce_all_congruent(
                s2@[k],
                external_layer(field.external_rounds(rcs, s0@[k])),
            );
        }
    }
}

/// Reducing every lane reduces every instance.
pub proof fn lemma_reduced_instance<const HEIGHT: usize>(
    field: FieldModel,
    before: Packed64bitM31Tensor<HEIGHT>,
    after: Packed64bitM31Tensor<HEIGHT>,
    k: int,
)
    requires
        supported(HEIGHT),
        0 <= k < instances(HEIGHT),
        forall|h: int, r: int, c: int|
            0 <= h < HEIGHT && in_block(r, c) ==> #[trigger] after.at(h, r, c) == monty_reduce(
                before.at(h, r, c) as int,
                field.prime,
            ),
    ensures
        after@[k] == field.reduce_all(before@[k]),
{
    assert forall|i: int| 0 <= i < width(HEIGHT) implies after@[k][i] == field.reduce_all(
        before@[k],
    )[i] by {
        before.lemma_view_at(k, i);
        after.lemma_view_at(k, i);
    }
    assert(after@[k] =~= field.reduce_all(before@[k]));
}

/// Reducing every lane reduces the state.
pub proof fn lemma_reduced<const HEIGHT: usize>(
    field: FieldModel,
    before: Packed64bitM31Tensor<HEIGHT>,
    after: Packed64bitM31Tensor<HEIGHT>,
)
    requires
        supported(HEIGHT),
        forall|h: int, r: int, c: int|
            0 <= h < HEIGHT && in_block(r, c) ==> #[trigger] after.at(h, r, c) == monty_reduce(
                before.at(h, r, c) as int,
                field.prime,
            ),
    ensures
        after@ == reduced(field.prime, before@),
{
    assert forall|k: int, i: int|
        0 <= k < instances(HEIGHT) && 0 <= i < width(HEIGHT) implies #[trigger] after@[k][i]
        == reduced(field.prime, before@)[k][i] by {
        before.lemma_view_at(k, i);
        after.lemma_view_at(k, i);
    }
    lemma_same_instances(HEIGHT, after@, reduced(field.prime, before@));
}

/// The final set of external rounds. It starts behind the linear layer of its first round, and
/// ends with a linear layer. The result is not reduced.
pub fn final_external_rounds<const HEIGHT: usize, P2AVX2>(
    state: &mut Packed64bitM31Tensor<HEIGHT>,
    round_constants: &[Packed64bitM31Tensor<HEIGHT>],
) where P2AVX2: Poseidon2AVX2Methods<HEIGHT>
    requires
        supported(HEIGHT),
        round_constants@.len() > 0,
        all_canonical(round_constants@, P2AVX2::field().prime),
        forall|k: int, i: int|
            0 <= k < instances(HEIGHT) && 0 <= i < width(HEIGHT) ==> #[trigger] old(state)@[k][i]
                + round_constants@[0]@[k][i] < radix() * P2AVX2::field().prime,
    ensures
        final(state)@ == packed_final_rounds::<HEIGHT, P2AVX2>(
            views(round_constants@),
            old(state)@,
        ),
        final(state).all_below(49 * 2 * radix()),
        forall|k: int|
            0 <= k < instances(HEIGHT) ==> all_congruent(
                #[trigger] final(state)@[k],
                P2AVX2::field().final_rounds(
                    instance_constants(round_constants@, k),
                    old(state)@[k],
                ),
                P2AVX2::field().prime,
            ),
{
    let ghost s0 = *state;
    let ghost field = P2AVX2::field();
    let ghost rcs = round_constants@;
    constants_and_sbox::<HEIGHT, P2AVX2>(state, &round_constants[0]);
    let ghost s1 = *state;
    proof {
        P2AVX2::field_facts();
        s1.lemma_all_below(2 * radix());
        if rcs.len() > 1 {
            assert(rcs[1].all_below(field.prime));
            rcs[1].lemma_all_below(field.prime);
            assert forall|k: int| 0 <= k < instances(HEIGHT) implies external_input_fits(
                field,
                rcs[1]@[k],
                #[trigger] s1@[k],
            ) by {
                lemma_external_input_fits(field, rcs[1]@[k], s1@[k]);
            }
        }
    }
    external_rounds_from::<HEIGHT, P2AVX2>(state, round_constants, 1);
    let ghost s2 = *state;
    proof {
        s2.lemma_all_below(2 * radix());
        assert forall|k: int| 0 <= k < instances(HEIGHT) implies all_at_most(
            #[trigger] external_layer(s2@[k]),
            49 * (2 * radix() - 1),
        ) by {
            lemma_aes_mix_bounds(s2@[k], 2 * radix() - 1);
            lemma_add_column_sums_bounds(aes_mix(s2@[k]), 7 * (2 * radix() - 1));
        }
        assert forall|k: int| 0 <= k < instances(HEIGHT) implies #[trigger] layer_fits(s2, k) by {
            assert(all_at_most(external_layer(s2@[k]), 49 * (2 * radix() - 1)));
        }
    }
    external_linear_layer(state);
    proof {
        assert forall|k: int, i: int|
            0 <= k < instances(HEIGHT) && 0 <= i < width(HEIGHT) implies #[trigger] state@[k][i]
            < 49 * 2 * radix() by {
            assert(state@[k] == external_layer(s2@[k]));
            assert(all_at_most(external_layer(s2@[k]), 49 * (2 * radix() - 1)));
        }
        state.lemma_all_below(49 * 2 * radix());
        let consts = views(rcs);
        let first = seq![consts[0]];
        lemma_packed_rotation::<HEIGHT, P2AVX2>(consts.skip(1), s1@);
        assert(first.drop_last() =~= Seq::empty());
        reveal_with_fuel(packed_final_rounds, 2);
        assert(packed_final_rounds::<HEIGHT, P2AVX2>(first, s0@) == mixed(s1@));
        lemma_packed_final_rounds_add::<HEIGHT, P2AVX2>(first, consts.skip(1), s0@);
        assert(first + consts.skip(1) =~= consts);
        assert forall|k: int| 0 <= k < instances(HEIGHT) implies all_congruent(
            #[trigger] state@[k],
            field.final_rounds(instance_constants(rcs, k), s0@[k]),
            field.prime,
        ) by {
            let consts = instance_constants(rcs, k);
            let first = field.constants_and_sbox(rcs[0]@[k], s0@[k]);
            assert(state@[k] == external_layer(s2@[k]));
            assert(all_congruent(s1@[k], first, field.prime));
            assert(all_congruent(
                s2@[k],
                field.external_rounds(consts.skip(1), s1@[k]),
                field.prime,
            ));
            field.lemma_external_rounds_congruent(consts.skip(1), s1@[k], first);
            assert(all_congruent(
                s2@[k],
                field.external_rounds(consts.skip(1), first),
                field.prime,
            ));
            lemma_external_layer_congruent(
                s2@[k],
                field.external_rounds(consts.skip(1), first),
                field.prime,
            );
        }
    }
}

} // verus!
