//! The lanes of the rounds, written out.
//!
//! Reductions and s-boxes act on rows of four lanes. The laws say which rows a round hands to them,
//! and so which lanes it returns.
use crate::composition::{
    add_gives, full_reduce_gives, joint_sbox_gives, mat_mul_aes_gives, right_mat_mul_gives,
    rotated_rounds_give,
};
use crate::field::monty_reduce;
use crate::helpers::Poseidon2AVX2Methods;
use crate::internal::lemma_sum_first_update;
use crate::lanes::{wrap, U64x4};
use crate::layout::{
    element_at, instance_at, instances, lemma_element_of_place, supported, width,
};
use crate::model::{add_column_sums, external_layer, sum_first, Instances};
use crate::number_theory::lemma_odd_prime;
use crate::packed::{
    added, lead_row, lemma_row_in, mixed, packed_external_round, packed_internal_round,
    packed_internal_rounds, partially_reduced, reduced, row_in, sboxed, unreduced_instances,
};
use crate::tensor::{aes_at, in_block, Packed64bitM31Tensor};
use crate::written_out::law_monty_reduce;
use vstd::arithmetic::power2::pow2;
use vstd::prelude::*;

verus! {

/// The residue in one lane behind the reduction of an external round.
proof fn lemma_reduced_lane<const HEIGHT: usize>(
    prime: int,
    constants: Packed64bitM31Tensor<HEIGHT>,
    before: Packed64bitM31Tensor<HEIGHT>,
    m: u64,
    h: int,
    r: int,
    c: int,
)
    requires
        prime > 1,
        prime % 2 == 1,
        supported(HEIGHT),
        0 <= h < HEIGHT,
        0 <= r < 4,
        0 <= c < 4,
        m < prime,
        ({
            let k = instance_at(HEIGHT, c);
            let i = element_at(HEIGHT, h, r, c);
            (m * 0x1_0000_0000 - (external_layer(before@[k])[i] + constants@[k][i])) % prime == 0
        }),
    ensures
        reduced(prime, added(constants@, mixed(before@)))[instance_at(HEIGHT, c)][element_at(
            HEIGHT,
            h,
            r,
            c,
        )] == m,
{
    lemma_element_of_place(HEIGHT, h, r, c);
    let k = instance_at(HEIGHT, c);
    let i = element_at(HEIGHT, h, r, c);
    let v = external_layer(before@[k])[i] + constants@[k][i];
    assert(reduced(prime, added(constants@, mixed(before@)))[k][i] == monty_reduce(v, prime));
    law_monty_reduce(v, m as int, prime);
}

/// A row behind the s-boxes of an external round.
proof fn lemma_sboxed_row<const HEIGHT: usize, P2AVX2: Poseidon2AVX2Methods<HEIGHT>>(
    v: Instances,
    after: Packed64bitM31Tensor<HEIGHT>,
    h: int,
    r: int,
)
    requires
        supported(HEIGHT),
        0 <= h < HEIGHT,
        0 <= r < 4,
        after@ == sboxed::<HEIGHT, P2AVX2>(v),
    ensures
        after.0[h][r] == P2AVX2::joint_sboxed(row_in(HEIGHT, v, h, r)),
{
    let row = P2AVX2::joint_sboxed(row_in(HEIGHT, v, h, r));
    assert forall|c: int| 0 <= c < 4 implies after.0[h][r][c] == row[c] by {
        lemma_element_of_place(HEIGHT, h, r, c);
        after.lemma_view_at(instance_at(HEIGHT, c), element_at(HEIGHT, h, r, c));
    }
    assert(after.0[h][r] =~= row);
}

/// A row behind the reduction of an internal round.
proof fn lemma_partially_reduced_row<const HEIGHT: usize, P2AVX2: Poseidon2AVX2Methods<HEIGHT>>(
    v: Instances,
    after: Packed64bitM31Tensor<HEIGHT>,
    h: int,
    r: int,
)
    requires
        supported(HEIGHT),
        0 <= h < HEIGHT,
        0 <= r < 4,
        after@ == partially_reduced::<HEIGHT, P2AVX2>(v),
    ensures
        after.0[h][r] == P2AVX2::partially_reduced(row_in(HEIGHT, v, h, r)),
{
    let row = P2AVX2::partially_reduced(row_in(HEIGHT, v, h, r));
    assert forall|c: int| 0 <= c < 4 implies after.0[h][r][c] == row[c] by {
        lemma_element_of_place(HEIGHT, h, r, c);
        after.lemma_view_at(instance_at(HEIGHT, c), element_at(HEIGHT, h, r, c));
    }
    assert(after.0[h][r] =~= row);
}

/// An external round hands the s-boxes the rows `m` of residues that give the linear layer with the
/// round constants when they are multiplied by `2^32`.
pub proof fn law_external_round_lanes<
    const HEIGHT: usize,
    P2AVX2: Poseidon2AVX2Methods<HEIGHT>,
>(
    constants: Packed64bitM31Tensor<HEIGHT>,
    before: Packed64bitM31Tensor<HEIGHT>,
    after: Packed64bitM31Tensor<HEIGHT>,
    m: U64x4,
    h: int,
    r: int,
)
    requires
        supported(HEIGHT),
        0 <= h < HEIGHT,
        0 <= r < 4,
        after@ == packed_external_round::<HEIGHT, P2AVX2>(constants@, before@),
        forall|c: int|
            0 <= c < 4 ==> (#[trigger] m[c]) < P2AVX2::field().prime && ({
                let k = instance_at(HEIGHT, c);
                let i = element_at(HEIGHT, h, r, c);
                (m[c] * 0x1_0000_0000 - (external_layer(before@[k])[i] + constants@[k][i]))
                    % P2AVX2::field().prime == 0
            }),
    ensures
        after.0[h][r] == P2AVX2::joint_sboxed(m),
{
    let prime = P2AVX2::field().prime;
    P2AVX2::field_facts();
    lemma_odd_prime(prime);
    let w = reduced(prime, added(constants@, mixed(before@)));
    let row = row_in(HEIGHT, w, h, r);
    assert forall|c: int| 0 <= c < 4 implies row[c] == m[c] by {
        assert(m[c] < prime);
        lemma_reduced_lane(prime, constants, before, m[c], h, r, c);
        assert(c == 0 || c == 1 || c == 2 || c == 3);
    }
    assert(row =~= m);
    lemma_sboxed_row::<HEIGHT, P2AVX2>(w, after, h, r);
}

/// The row of the elements 0, written out.
proof fn lemma_lead_row_written_out<const HEIGHT: usize>(
    state: Packed64bitM31Tensor<HEIGHT>,
    lead: U64x4,
)
    requires
        supported(HEIGHT),
        lead[0] == state.0[0][0][0],
        lead[1] == if HEIGHT == 4 {
            state.0[0][0][1]
        } else {
            0
        },
        lead[2] == if HEIGHT == 1 {
            0
        } else {
            state.0[0][0][2]
        },
        lead[3] == if HEIGHT == 4 {
            state.0[0][0][3]
        } else {
            0
        },
    ensures
        lead == lead_row(HEIGHT, state@),
{
    lemma_row_in(state, 0, 0);
    let row = lead_row(HEIGHT, state@);
    assert forall|c: int| 0 <= c < 4 implies lead[c] == row[c] by {
        assert(c == 0 || c == 1 || c == 2 || c == 3);
    }
    assert(lead =~= row);
}

/// An internal round hands the s-box of its height the row `lead` of the elements 0, with zeros
/// in the other lanes, and gets back `post`. Then it hands the reduction the rows `u`: the shifted
/// elements other than 0, the sum of these elements of the instance, the lanes of `post` that
/// belong to the instance, and in the first row `6 * P - 2 * post`.
pub proof fn law_internal_round_lanes<
    const HEIGHT: usize,
    P2AVX2: Poseidon2AVX2Methods<HEIGHT>,
>(
    rc: u32,
    before: Packed64bitM31Tensor<HEIGHT>,
    after: Packed64bitM31Tensor<HEIGHT>,
    lead: U64x4,
    post: U64x4,
    u: U64x4,
    h: int,
    r: int,
)
    requires
        supported(HEIGHT),
        0 <= h < HEIGHT,
        0 <= r < 4,
        after@ == packed_internal_round::<HEIGHT, P2AVX2>(rc, before@),
        lead[0] == before.0[0][0][0],
        lead[1] == if HEIGHT == 4 {
            before.0[0][0][1]
        } else {
            0
        },
        lead[2] == if HEIGHT == 1 {
            0
        } else {
            before.0[0][0][2]
        },
        lead[3] == if HEIGHT == 4 {
            before.0[0][0][3]
        } else {
            0
        },
        HEIGHT == 1 ==> post == P2AVX2::scalar_sboxed(lead, rc),
        HEIGHT == 2 || HEIGHT == 3 ==> post == P2AVX2::double_sboxed(lead, rc),
        HEIGHT == 4 ==> post == P2AVX2::quad_sboxed(lead, rc),
        forall|c: int|
            0 <= c < 4 ==> #[trigger] u[c] == ({
                let k = instance_at(HEIGHT, c);
                let i = element_at(HEIGHT, h, r, c);
                let x = before@[k];
                (if h == 0 && r == 0 {
                    6 * P2AVX2::field().prime - 2 * post[c]
                } else {
                    0
                }) + (if i == 0 {
                    0
                } else {
                    x[i] * pow2(P2AVX2::INTERNAL_SHIFTS@[k][i] as nat)
                }) + (sum_first(x, width(HEIGHT)) - x[0]) + (if HEIGHT == 1 {
                    post[0] + post[1] + post[2] + post[3]
                } else if HEIGHT == 4 {
                    post[c] as int
                } else if c < 2 {
                    post[0] + post[1]
                } else {
                    post[2] + post[3]
                })
            }),
    ensures
        after.0[h][r] == P2AVX2::partially_reduced(u),
{
    let w = unreduced_instances::<HEIGHT, P2AVX2>(post, before@);
    let row = row_in(HEIGHT, w, h, r);
    lemma_lead_row_written_out(before, lead);
    assert forall|c: int| 0 <= c < 4 implies row[c] == u[c] by {
        lemma_element_of_place(HEIGHT, h, r, c);
        let k = instance_at(HEIGHT, c);
        let x = before@[k];
        lemma_sum_first_update(x, x[0], width(HEIGHT));
        assert(x.update(0, x[0]) =~= x);
        assert(u[c] == w[k][element_at(HEIGHT, h, r, c)]);
        assert(c == 0 || c == 1 || c == 2 || c == 3);
    }
    assert(row =~= u);
    lemma_partially_reduced_row::<HEIGHT, P2AVX2>(w, after, h, r);
}

/// What it says of two tensors that a call takes one to the other.
pub proof fn law_calls<const HEIGHT: usize, P2AVX2: Poseidon2AVX2Methods<HEIGHT>>(
    before: Packed64bitM31Tensor<HEIGHT>,
    rhs: Packed64bitM31Tensor<HEIGHT>,
    after: Packed64bitM31Tensor<HEIGHT>,
)
    ensures
        mat_mul_aes_gives(before, after) <==> forall|h: int, r: int, c: int|
            0 <= h < HEIGHT && in_block(r, c) ==> #[trigger] after.at(h, r, c) == wrap(
                aes_at(before.0[h], r, c),
            ),
        right_mat_mul_gives(before, after) <==> forall|k: int, i: int|
            0 <= k < instances(HEIGHT) && 0 <= i < width(HEIGHT) ==> #[trigger] after@[k][i]
                == wrap(add_column_sums(before@[k])[i]),
        add_gives(before, rhs, after) <==> forall|h: int, r: int, c: int|
            0 <= h < HEIGHT && in_block(r, c) ==> #[trigger] after.at(h, r, c) == wrap(
                before.at(h, r, c) + rhs.at(h, r, c),
            ),
        full_reduce_gives(P2AVX2::field().prime, before, after) <==> forall|h: int, r: int, c: int|
            0 <= h < HEIGHT && in_block(r, c) ==> #[trigger] after.at(h, r, c) == monty_reduce(
                before.at(h, r, c) as int,
                P2AVX2::field().prime,
            ),
        joint_sbox_gives::<HEIGHT, P2AVX2>(before, after) <==> after.all_below(0x2_0000_0000) && (
        forall|h: int, r: int|
            0 <= h < HEIGHT && 0 <= r < 4 ==> #[trigger] after.0[h][r] == P2AVX2::joint_sboxed(
                before.0[h][r],
            )),
{
}

/// What it says of tensors that a loop of external rounds takes each to the next.
pub proof fn law_rotated_rounds<const HEIGHT: usize, P2AVX2: Poseidon2AVX2Methods<HEIGHT>>(
    round_constants: Seq<Packed64bitM31Tensor<HEIGHT>>,
    states: Seq<Packed64bitM31Tensor<HEIGHT>>,
)
    ensures
        rotated_rounds_give::<HEIGHT, P2AVX2>(round_constants, states) <==> states.len()
            == round_constants.len() + 1 && (forall|j: int|
            1 <= j < states.len() ==> (#[trigger] states[j])@ == packed_external_round::<
                HEIGHT,
                P2AVX2,
            >(round_constants[j - 1]@, states[j - 1]@) && states[j].all_below(0x2_0000_0000)),
{
}

/// Without round constants the internal rounds keep the lanes, and with one more constant there is
/// one more round behind the others.
pub proof fn law_one_more_internal_round_in_lanes<
    const HEIGHT: usize,
    P2AVX2: Poseidon2AVX2Methods<HEIGHT>,
>(constants: Seq<u32>, last: u32, v: Instances)
    ensures
        packed_internal_rounds::<HEIGHT, P2AVX2>(Seq::empty(), v) == v,
        packed_internal_rounds::<HEIGHT, P2AVX2>(constants.push(last), v)
            == packed_internal_round::<HEIGHT, P2AVX2>(
            last,
            packed_internal_rounds::<HEIGHT, P2AVX2>(constants, v),
        ),
{
    assert(constants.push(last).drop_last() =~= constants);
}

} // verus!
