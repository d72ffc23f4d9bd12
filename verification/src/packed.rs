//! What the rounds make of a packed state, lane by lane.
//!
//! The reductions and s-boxes of a field act on rows of four lanes, which may belong to different
//! instances, and leave open which representatives of the residues they return. The functions here
//! say which lanes a round returns, given what the field's operations return.
use crate::field::monty_reduce;
use crate::helpers::{internal_sboxed, Poseidon2AVX2Methods};
use crate::lanes::{lane_values, U64x4};
use crate::layout::{
    block_of, element_at, instance_at, instance_sum, instances, is_lead, lane_of,
    lemma_element_of_place, row_of, supported, width,
};
use crate::model::{external_layer, sum_first, Instances};
use crate::tensor::Packed64bitM31Tensor;
use vstd::arithmetic::power2::pow2;
use vstd::prelude::*;

verus! {

/// Row `r` of block `h` of the tensor that holds the instances `v`.
pub open spec fn row_in(height: usize, v: Instances, h: int, r: int) -> U64x4 {
    [
        v[instance_at(height, 0)][element_at(height, h, r, 0)] as u64,
        v[instance_at(height, 1)][element_at(height, h, r, 1)] as u64,
        v[instance_at(height, 2)][element_at(height, h, r, 2)] as u64,
        v[instance_at(height, 3)][element_at(height, h, r, 3)] as u64,
    ]
}

/// The row that holds the elements 0 of the instances `v`, and zero in the other lanes.
pub open spec fn lead_row(height: usize, v: Instances) -> U64x4 {
    let row = row_in(height, v, 0, 0);
    [
        if is_lead(height, 0) { row[0] } else { 0 },
        if is_lead(height, 1) { row[1] } else { 0 },
        if is_lead(height, 2) { row[2] } else { 0 },
        if is_lead(height, 3) { row[3] } else { 0 },
    ]
}

/// The external linear layer on every instance.
pub open spec fn mixed(v: Instances) -> Instances {
    Seq::new(v.len(), |k: int| external_layer(v[k]))
}

/// The full reduction of every element.
pub open spec fn reduced(prime: int, v: Instances) -> Instances {
    Seq::new(v.len(), |k: int| Seq::new(v[k].len(), |i: int| monty_reduce(v[k][i], prime)))
}

/// The sum of two states, element by element.
pub open spec fn added(constants: Instances, v: Instances) -> Instances {
    Seq::new(v.len(), |k: int| Seq::new(v[k].len(), |i: int| v[k][i] + constants[k][i]))
}

/// The s-boxes of the external rounds on every row.
pub open spec fn sboxed<const HEIGHT: usize, P2AVX2: Poseidon2AVX2Methods<HEIGHT>>(
    v: Instances,
) -> Instances {
    Seq::new(
        instances(HEIGHT),
        |k: int|
            Seq::new(
                width(HEIGHT),
                |i: int|
                    P2AVX2::joint_sboxed(
                        row_in(HEIGHT, v, block_of(HEIGHT, i), row_of(i)),
                    )[lane_of(HEIGHT, k, i)] as int,
            ),
    )
}

/// The partial reduction of every row.
pub open spec fn partially_reduced<const HEIGHT: usize, P2AVX2: Poseidon2AVX2Methods<HEIGHT>>(
    v: Instances,
) -> Instances {
    Seq::new(
        instances(HEIGHT),
        |k: int|
            Seq::new(
                width(HEIGHT),
                |i: int|
                    P2AVX2::partially_reduced(
                        row_in(HEIGHT, v, block_of(HEIGHT, i), row_of(i)),
                    )[lane_of(HEIGHT, k, i)] as int,
            ),
    )
}

/// Adds the round constants, reduces, and applies the s-boxes.
pub open spec fn packed_half_round<const HEIGHT: usize, P2AVX2: Poseidon2AVX2Methods<HEIGHT>>(
    constants: Instances,
    v: Instances,
) -> Instances {
    sboxed::<HEIGHT, P2AVX2>(reduced(P2AVX2::field().prime, added(constants, v)))
}

/// An external round: the linear layer, then the round constants and the s-boxes.
pub open spec fn packed_external_round<const HEIGHT: usize, P2AVX2: Poseidon2AVX2Methods<HEIGHT>>(
    constants: Instances,
    v: Instances,
) -> Instances {
    packed_half_round::<HEIGHT, P2AVX2>(constants, mixed(v))
}

/// One external round for each element of `constants`.
pub open spec fn packed_external_rounds<const HEIGHT: usize, P2AVX2: Poseidon2AVX2Methods<HEIGHT>>(
    constants: Seq<Instances>,
    v: Instances,
) -> Instances
    decreases constants.len(),
{
    if constants.len() == 0 {
        v
    } else {
        packed_external_round::<HEIGHT, P2AVX2>(
            constants.last(),
            packed_external_rounds::<HEIGHT, P2AVX2>(constants.drop_last(), v),
        )
    }
}

/// The initial external rounds: the rounds, a linear layer, and a full reduction.
pub open spec fn packed_initial_rounds<const HEIGHT: usize, P2AVX2: Poseidon2AVX2Methods<HEIGHT>>(
    constants: Seq<Instances>,
    v: Instances,
) -> Instances {
    reduced(
        P2AVX2::field().prime,
        mixed(packed_external_rounds::<HEIGHT, P2AVX2>(constants, v)),
    )
}

/// The final external rounds: for each element of `constants` the round constants, the s-boxes and
/// the linear layer.
pub open spec fn packed_final_rounds<const HEIGHT: usize, P2AVX2: Poseidon2AVX2Methods<HEIGHT>>(
    constants: Seq<Instances>,
    v: Instances,
) -> Instances
    decreases constants.len(),
{
    if constants.len() == 0 {
        v
    } else {
        mixed(
            packed_half_round::<HEIGHT, P2AVX2>(
                constants.last(),
                packed_final_rounds::<HEIGHT, P2AVX2>(constants.drop_last(), v),
            ),
        )
    }
}

/// What an internal round reduces, where `post` is what the s-boxes have made of the elements 0.
///
/// The first row gets minus two times `post` and six times the prime, the other elements are
/// shifted, and every element gets the sum of its instance.
pub open spec fn unreduced_instances<const HEIGHT: usize, P2AVX2: Poseidon2AVX2Methods<HEIGHT>>(
    post: U64x4,
    v: Instances,
) -> Instances {
    Seq::new(
        instances(HEIGHT),
        |k: int|
            Seq::new(
                width(HEIGHT),
                |i: int|
                    (if block_of(HEIGHT, i) == 0 && row_of(i) == 0 {
                        6 * P2AVX2::field().prime - 2 * post[lane_of(HEIGHT, k, i)]
                    } else {
                        0
                    }) + (if i == 0 {
                        0
                    } else {
                        v[k][i] * pow2(P2AVX2::INTERNAL_SHIFTS@[k][i] as nat)
                    }) + sum_first(v[k].update(0, 0), width(HEIGHT)) + instance_sum(
                        HEIGHT,
                        lane_values(post),
                        lane_of(HEIGHT, k, i),
                    ),
            ),
    )
}

/// An internal round: the s-boxes on the elements 0, the linear layer, and a partial reduction.
pub open spec fn packed_internal_round<const HEIGHT: usize, P2AVX2: Poseidon2AVX2Methods<HEIGHT>>(
    constant: u32,
    v: Instances,
) -> Instances {
    partially_reduced::<HEIGHT, P2AVX2>(
        unreduced_instances::<HEIGHT, P2AVX2>(
            internal_sboxed::<P2AVX2>(HEIGHT, lead_row(HEIGHT, v), constant),
            v,
        ),
    )
}

/// One internal round for each element of `constants`.
pub open spec fn packed_internal_rounds<const HEIGHT: usize, P2AVX2: Poseidon2AVX2Methods<HEIGHT>>(
    constants: Seq<u32>,
    v: Instances,
) -> Instances
    decreases constants.len(),
{
    if constants.len() == 0 {
        v
    } else {
        packed_internal_round::<HEIGHT, P2AVX2>(
            constants.last(),
            packed_internal_rounds::<HEIGHT, P2AVX2>(constants.drop_last(), v),
        )
    }
}

/// The instances that each of the tensors holds.
pub open spec fn views<const HEIGHT: usize>(tensors: Seq<Packed64bitM31Tensor<HEIGHT>>) -> Seq<
    Instances,
> {
    Seq::new(tensors.len(), |j: int| tensors[j]@)
}

/// The rows of a tensor, from its instances.
pub proof fn lemma_row_in<const HEIGHT: usize>(t: Packed64bitM31Tensor<HEIGHT>, h: int, r: int)
    requires
        supported(HEIGHT),
        0 <= h < HEIGHT,
        0 <= r < 4,
    ensures
        row_in(HEIGHT, t@, h, r) == t.0[h][r],
{
    let row = row_in(HEIGHT, t@, h, r);
    assert forall|c: int| 0 <= c < 4 implies row[c] == t.0[h][r][c] by {
        lemma_element_of_place(HEIGHT, h, r, c);
        t.lemma_view_at(instance_at(HEIGHT, c), element_at(HEIGHT, h, r, c));
        assert(c == 0 || c == 1 || c == 2 || c == 3);
    }
    assert(row =~= t.0[h][r]);
}

/// Two states of the same instances are the same, element by element.
pub proof fn lemma_same_instances(height: usize, v: Instances, w: Instances)
    requires
        v.len() == instances(height),
        w.len() == instances(height),
        forall|k: int|
            0 <= k < instances(height) ==> (#[trigger] v[k]).len() == width(height) && w[k].len()
                == width(height),
        forall|k: int, i: int|
            0 <= k < instances(height) && 0 <= i < width(height) ==> #[trigger] v[k][i] == w[k][i],
    ensures
        v == w,
{
    assert forall|k: int| 0 <= k < v.len() implies v[k] == w[k] by {
        assert(v[k] =~= w[k]);
    }
    assert(v =~= w);
}

/// Applying the s-boxes row by row.
pub proof fn lemma_sboxed<const HEIGHT: usize, P2AVX2: Poseidon2AVX2Methods<HEIGHT>>(
    before: Packed64bitM31Tensor<HEIGHT>,
    after: Packed64bitM31Tensor<HEIGHT>,
)
    requires
        supported(HEIGHT),
        forall|h: int, r: int|
            0 <= h < HEIGHT && 0 <= r < 4 ==> #[trigger] after.0[h][r] == P2AVX2::joint_sboxed(
                before.0[h][r],
            ),
    ensures
        after@ == sboxed::<HEIGHT, P2AVX2>(before@),
{
    assert forall|k: int, i: int|
        0 <= k < instances(HEIGHT) && 0 <= i < width(HEIGHT) implies #[trigger] after@[k][i]
        == sboxed::<HEIGHT, P2AVX2>(before@)[k][i] by {
        after.lemma_view_at(k, i);
        lemma_row_in(before, block_of(HEIGHT, i), row_of(i));
        assert(after.0[block_of(HEIGHT, i)][row_of(i)] == P2AVX2::joint_sboxed(
            before.0[block_of(HEIGHT, i)][row_of(i)],
        ));
    }
    lemma_same_instances(HEIGHT, after@, sboxed::<HEIGHT, P2AVX2>(before@));
}

/// Reducing partially row by row.
pub proof fn lemma_partially_reduced<const HEIGHT: usize, P2AVX2: Poseidon2AVX2Methods<HEIGHT>>(
    before: Packed64bitM31Tensor<HEIGHT>,
    after: Packed64bitM31Tensor<HEIGHT>,
)
    requires
        supported(HEIGHT),
        forall|h: int, r: int|
            0 <= h < HEIGHT && 0 <= r < 4 ==> #[trigger] after.0[h][r]
                == P2AVX2::partially_reduced(before.0[h][r]),
    ensures
        after@ == partially_reduced::<HEIGHT, P2AVX2>(before@),
{
    assert forall|k: int, i: int|
        0 <= k < instances(HEIGHT) && 0 <= i < width(HEIGHT) implies #[trigger] after@[k][i]
        == partially_reduced::<HEIGHT, P2AVX2>(before@)[k][i] by {
        after.lemma_view_at(k, i);
        lemma_row_in(before, block_of(HEIGHT, i), row_of(i));
        assert(after.0[block_of(HEIGHT, i)][row_of(i)] == P2AVX2::partially_reduced(
            before.0[block_of(HEIGHT, i)][row_of(i)],
        ));
    }
    lemma_same_instances(HEIGHT, after@, partially_reduced::<HEIGHT, P2AVX2>(before@));
}

/// Rounds that start with the linear layer, and one more layer, are one layer and rounds that end
/// with it.
pub proof fn lemma_packed_rotation<const HEIGHT: usize, P2AVX2: Poseidon2AVX2Methods<HEIGHT>>(
    constants: Seq<Instances>,
    v: Instances,
)
    ensures
        mixed(packed_external_rounds::<HEIGHT, P2AVX2>(constants, v)) == packed_final_rounds::<
            HEIGHT,
            P2AVX2,
        >(constants, mixed(v)),
    decreases constants.len(),
{
    if constants.len() > 0 {
        lemma_packed_rotation::<HEIGHT, P2AVX2>(constants.drop_last(), v);
    }
}

/// The final rounds with the constants of `a` and then `b` are those of `a`, and then those of `b`.
pub proof fn lemma_packed_final_rounds_add<
    const HEIGHT: usize,
    P2AVX2: Poseidon2AVX2Methods<HEIGHT>,
>(a: Seq<Instances>, b: Seq<Instances>, v: Instances)
    ensures
        packed_final_rounds::<HEIGHT, P2AVX2>(a + b, v) == packed_final_rounds::<HEIGHT, P2AVX2>(
            b,
            packed_final_rounds::<HEIGHT, P2AVX2>(a, v),
        ),
    decreases b.len(),
{
    if b.len() == 0 {
        assert(a + b =~= a);
    } else {
        lemma_packed_final_rounds_add::<HEIGHT, P2AVX2>(a, b.drop_last(), v);
        assert((a + b).drop_last() =~= a + b.drop_last());
    }
}

/// The internal rounds with the constants of `a` and then `b` are those of `a`, and then those of
/// `b`.
pub proof fn lemma_packed_internal_rounds_add<
    const HEIGHT: usize,
    P2AVX2: Poseidon2AVX2Methods<HEIGHT>,
>(a: Seq<u32>, b: Seq<u32>, v: Instances)
    ensures
        packed_internal_rounds::<HEIGHT, P2AVX2>(a + b, v) == packed_internal_rounds::<
            HEIGHT,
            P2AVX2,
        >(b, packed_internal_rounds::<HEIGHT, P2AVX2>(a, v)),
    decreases b.len(),
{
    if b.len() == 0 {
        assert(a + b =~= a);
    } else {
        lemma_packed_internal_rounds_add::<HEIGHT, P2AVX2>(a, b.drop_last(), v);
        assert((a + b).drop_last() =~= a + b.drop_last());
    }
}

} // verus!
