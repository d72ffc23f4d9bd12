//! The internal rounds of the permutation, on packed states.
use crate::field::{
    all_congruent, congruent, lemma_congruent_add, lemma_congruent_mul,
    lemma_monty_reduce_congruent, monty_reduce, radix, radix_inverse,
};
use crate::helpers::{internal_sbox_output, Poseidon2AVX2Methods};
use crate::lanes::{
    add_lanes, horizontal_sum, lane_values, lemma_wrap_add, split, sub_lanes, wrap, U64x4,
};
use crate::layout::{
    block_of, element_at, instance_at, instance_sum, instances, is_lead, lane_of,
    lemma_element_of_place, lemma_place_of_element, row_of, supported, width,
};
use crate::model::{internal_layer, lemma_internal_layer_congruent, sum_first, FieldModel};
use crate::packed::{
    lead_row, lemma_partially_reduced, lemma_row_in, lemma_same_instances, packed_internal_round,
    packed_internal_rounds, unreduced_instances,
};
use crate::tensor::{in_block, Packed64bitM31Tensor};
use vstd::arithmetic::div_mod::{lemma_mod_multiples_basic, lemma_mod_twice, lemma_small_mod};
use vstd::arithmetic::power2::{lemma2_to64, lemma_pow2_strictly_increases, pow2};
use vstd::prelude::*;

verus! {

/// What the sums of the lanes come to, with the results of the s-boxes `post` added.
spec fn summed<const HEIGHT: usize>(rest: Packed64bitM31Tensor<HEIGHT>, post: U64x4) -> Seq<int> {
    Seq::new(4, |c: int| rest.lane_sum(c, HEIGHT as nat) + post[c])
}

/// What an internal round reduces in block `h`, row `r` and lane `c`, where `rest` is the state
/// without the elements 0 of the instances, and `post` holds the results of the s-boxes on them.
spec fn unreduced<const HEIGHT: usize>(
    prime: int,
    rest: Packed64bitM31Tensor<HEIGHT>,
    shifts: Packed64bitM31Tensor<HEIGHT>,
    post: U64x4,
    h: int,
    r: int,
    c: int,
) -> int {
    (if h == 0 && r == 0 {
        6 * prime - 2 * post[c]
    } else {
        0
    }) + rest.at(h, r, c) * pow2(shifts.at(h, r, c) as nat) + instance_sum(
        HEIGHT,
        summed(rest, post),
        c,
    )
}

/// The parts of a state on which an internal round does not overflow.
spec fn in_range<const HEIGHT: usize>(
    prime: int,
    rest: Packed64bitM31Tensor<HEIGHT>,
    shifts: Packed64bitM31Tensor<HEIGHT>,
    post: U64x4,
) -> bool {
    &&& supported(HEIGHT)
    &&& 0x4000_0000 < prime < 0x8000_0000
    &&& rest.all_below(radix())
    &&& forall|c: int| 0 <= c < 4 ==> #[trigger] post[c] < radix()
    &&& forall|h: int, r: int, c: int|
        0 <= h < HEIGHT && in_block(r, c) ==> #[trigger] shifts.at(h, r, c) <= 29 || rest.at(
            h,
            r,
            c,
        ) == 0
}

proof fn lemma_product_bounds(x: u64, s: u64)
    requires
        x < radix(),
        s <= 29 || x == 0,
    ensures
        0 <= x * pow2(s as nat) <= radix() * 0x2000_0000,
{
    lemma2_to64();
    if x == 0 {
        assert(x * pow2(s as nat) == 0) by (nonlinear_arith)
            requires
                x == 0,
        ;
    } else {
        if s < 29 {
            lemma_pow2_strictly_increases(s as nat, 29);
        }
        assert(0 <= x * pow2(s as nat) <= radix() * 0x2000_0000) by (nonlinear_arith)
            requires
                0 <= x < radix(),
                0 <= pow2(s as nat) <= 0x2000_0000,
        ;
    }
}

proof fn lemma_summed_bounds<const HEIGHT: usize>(
    rest: Packed64bitM31Tensor<HEIGHT>,
    post: U64x4,
    c: int,
)
    requires
        supported(HEIGHT),
        rest.all_below(radix()),
        0 <= c < 4,
        forall|c: int| 0 <= c < 4 ==> #[trigger] post[c] < radix(),
    ensures
        post[c] <= summed(rest, post)[c] < 17 * radix(),
        post[c] <= instance_sum(HEIGHT, summed(rest, post), c) < 68 * radix(),
{
    assert forall|d: int| 0 <= d < 4 implies post[d] <= #[trigger] summed(rest, post)[d] < 17
        * radix() by {
        rest.lemma_lane_sum_bounds(d, HEIGHT as nat, radix() - 1);
        assert(post[d] < radix());
    }
}

/// What an internal round reduces can be reduced.
proof fn lemma_unreduced_bounds<const HEIGHT: usize>(
    prime: int,
    rest: Packed64bitM31Tensor<HEIGHT>,
    shifts: Packed64bitM31Tensor<HEIGHT>,
    post: U64x4,
    h: int,
    r: int,
    c: int,
)
    requires
        in_range(prime, rest, shifts, post),
        0 <= h < HEIGHT,
        in_block(r, c),
    ensures
        0 <= unreduced(prime, rest, shifts, post, h, r, c) < radix() * prime,
{
    assert(rest.at(h, r, c) < radix());
    assert(shifts.at(h, r, c) <= 29 || rest.at(h, r, c) == 0);
    assert(post[c] < radix());
    lemma_product_bounds(rest.at(h, r, c), shifts.at(h, r, c));
    lemma_summed_bounds(rest, post, c);
}

/// The results of the s-boxes that belong to instance `k`, apart from that on its element 0.
spec fn idle_sum(height: usize, post: U64x4, k: int) -> int {
    if height == 1 {
        post[1] + post[2] + post[3]
    } else if height == 4 {
        0
    } else {
        post[2 * k + 1] as int
    }
}

/// The lane that holds element 0 of instance `k`.
spec fn lead_lane(height: usize, k: int) -> int {
    lane_of(height, k, 0)
}

/// Setting element 0 adds it to the sum of the others.
pub proof fn lemma_sum_first_update(x: Seq<int>, v: int, n: nat)
    requires
        1 <= n <= x.len(),
    ensures
        sum_first(x.update(0, v), n) == sum_first(x.update(0, 0), n) + v,
    decreases n,
{
    if n > 1 {
        lemma_sum_first_update(x, v, (n - 1) as nat);
    } else {
        reveal_with_fuel(sum_first, 2);
    }
}

/// What the lanes of instance `k` sum up to.
proof fn lemma_summed_total<const HEIGHT: usize>(
    rest: Packed64bitM31Tensor<HEIGHT>,
    post: U64x4,
    k: int,
    c: int,
)
    requires
        supported(HEIGHT),
        0 <= k < instances(HEIGHT),
        0 <= c < 4,
        instance_at(HEIGHT, c) == k,
    ensures
        instance_sum(HEIGHT, summed(rest, post), c) == sum_first(rest@[k], width(HEIGHT)) + post[
            lead_lane(HEIGHT, k)
        ] + idle_sum(HEIGHT, post, k),
{
    rest.lemma_instance_total(k, c);
}

/// What an internal round reduces is the internal linear layer on the instance whose element 0
/// the s-box has replaced, up to multiples of the prime.
proof fn lemma_unreduced_meaning<const HEIGHT: usize>(
    prime: int,
    rest: Packed64bitM31Tensor<HEIGHT>,
    shifts: Packed64bitM31Tensor<HEIGHT>,
    post: U64x4,
    k: int,
    i: int,
)
    requires
        supported(HEIGHT),
        prime > 0,
        0 <= k < instances(HEIGHT),
        0 <= i < width(HEIGHT),
        rest@[k][0] == 0,
        forall|c: int|
            0 <= c < 4 && !is_lead(HEIGHT, c) ==> (#[trigger] post[c]) as int % prime == 0,
    ensures
        congruent(
            unreduced(
                prime,
                rest,
                shifts,
                post,
                block_of(HEIGHT, i),
                row_of(i),
                lane_of(HEIGHT, k, i),
            ),
            internal_layer(
                shifts@[k],
                rest@[k].update(0, post[lead_lane(HEIGHT, k)] as int),
            )[i],
            prime,
        ),
{
    let h = block_of(HEIGHT, i);
    let r = row_of(i);
    let c = lane_of(HEIGHT, k, i);
    let lead = lead_lane(HEIGHT, k);
    let x = rest@[k];
    let y = x.update(0, post[lead] as int);
    let idle = idle_sum(HEIGHT, post, k);
    lemma_place_of_element(HEIGHT, k, i);
    lemma_place_of_element(HEIGHT, k, 0);
    rest.lemma_view_at(k, i);
    shifts.lemma_view_at(k, i);
    lemma_summed_total(rest, post, k, c);
    lemma_sum_first_update(x, post[lead] as int, width(HEIGHT));
    assert(x.update(0, 0) =~= x);
    assert(idle % prime == 0) by {
        if HEIGHT == 1 {
            assert(post[1] as int % prime == 0);
            assert(post[2] as int % prime == 0);
            assert(post[3] as int % prime == 0);
            lemma_small_mod(0, prime as nat);
            lemma_congruent_add(post[1] as int, 0, post[2] as int, 0, prime);
            lemma_congruent_add(post[1] + post[2], 0, post[3] as int, 0, prime);
        } else if HEIGHT == 4 {
            lemma_small_mod(0, prime as nat);
        } else {
            assert(!is_lead(HEIGHT, 2 * k + 1));
        }
    }
    let value = unreduced(prime, rest, shifts, post, h, r, c);
    let target = internal_layer(shifts@[k], y)[i];
    let prod = rest.at(h, r, c) * pow2(shifts.at(h, r, c) as nat);
    lemma_small_mod(0, prime as nat);
    if i == 0 {
        assert(h == 0 && r == 0 && c == lead);
        assert(prod == 0) by (nonlinear_arith)
            requires
                prod == rest.at(h, r, c) * pow2(shifts.at(h, r, c) as nat),
                rest.at(h, r, c) == 0,
        ;
        assert(value == target + idle + 6 * prime);
        lemma_mod_multiples_basic(6, prime);
        lemma_congruent_add(target, target, idle, 0, prime);
        lemma_congruent_add(target + idle, target, 6 * prime, 0, prime);
    } else {
        assert(target == sum_first(y, y.len()) + x[i] * pow2(shifts@[k][i] as nat));
        if h == 0 && r == 0 {
            assert(!is_lead(HEIGHT, c));
            assert(post[c] as int % prime == 0);
            assert(value == target + idle + 6 * prime + (-2) * post[c]);
            lemma_mod_multiples_basic(6, prime);
            lemma_congruent_mul(-2, -2, post[c] as int, 0, prime);
            lemma_congruent_add(target, target, idle, 0, prime);
            lemma_congruent_add(target + idle, target, 6 * prime, 0, prime);
            lemma_congruent_add(target + idle + 6 * prime, target, (-2) * post[c], 0, prime);
        } else {
            assert(value == target + idle);
            lemma_congruent_add(target, target, idle, 0, prime);
        }
    }
}

/// Adds `row` to every row of `state`, modulo `2^64`.
fn add_to_rows<const HEIGHT: usize>(state: &mut Packed64bitM31Tensor<HEIGHT>, row: U64x4)
    ensures
        forall|h: int, r: int, c: int|
            0 <= h < HEIGHT && in_block(r, c) ==> #[trigger] final(state).at(h, r, c) == wrap(
                old(state).at(h, r, c) + row[c],
            ),
{
    let mut h: usize = 0;
    while h < HEIGHT
        invariant
            h <= HEIGHT,
            forall|g: int, r: int, c: int|
                0 <= g < h && in_block(r, c) ==> #[trigger] state.0[g][r][c] == wrap(
                    old(state).at(g, r, c) + row[c],
                ),
            forall|g: int| h <= g < HEIGHT ==> #[trigger] state.0[g] == old(state).0[g],
        decreases HEIGHT - h,
    {
        let mat: [U64x4; 4] = state.0[h];
        state.0[h] = [
            add_lanes(mat[0], row),
            add_lanes(mat[1], row),
            add_lanes(mat[2], row),
            add_lanes(mat[3], row),
        ];
        h += 1;
    }
}

/// The additions on the first row, on one lane.
proof fn lemma_first_row_wraps(triple: int, post: int, element: int)
    ensures
        ({
            let neg = wrap(triple - post);
            wrap(wrap(neg + neg) + element) == wrap(2 * triple - 2 * post + element)
        }),
{
    lemma_wrap_add(triple - post, triple - post);
    lemma_wrap_add(2 * (triple - post), element);
}

/// The sums of the instances, each in all of its lanes.
fn instance_totals<const HEIGHT: usize>(
    rest: &Packed64bitM31Tensor<HEIGHT>,
    post: U64x4,
) -> (shift: U64x4)
    requires
        supported(HEIGHT),
        rest.all_below(radix()),
        forall|c: int| 0 <= c < 4 ==> #[trigger] post[c] < radix(),
    ensures
        forall|c: int|
            0 <= c < 4 ==> #[trigger] shift[c] == instance_sum(HEIGHT, summed(*rest, post), c),
{
    // Part of the sum, over the rows.
    let vec_sum: U64x4 = rest.vec_sum();
    let total_sum: U64x4 = add_lanes(vec_sum, post);
    proof {
        assert forall|c: int| 0 <= c < 4 implies #[trigger] total_sum[c] == summed(*rest, post)[c]
            && total_sum[c] < 17 * radix() by {
            lemma_summed_bounds(*rest, post, c);
            rest.lemma_lane_sum_bounds(c, HEIGHT as nat, radix() - 1);
            assert(vec_sum[c] == wrap(rest.lane_sum(c, HEIGHT as nat)));
            assert(post[c] < radix());
        }
        assert(lane_values(total_sum) =~= summed(*rest, post));
        assert(total_sum[0] < 17 * radix());
        assert(total_sum[1] < 17 * radix());
        assert(total_sum[2] < 17 * radix());
        assert(total_sum[3] < 17 * radix());
    }
    // The rest of the sum, over the lanes of each instance.
    let shift: U64x4 = horizontal_sum::<HEIGHT>(total_sum);
    proof {
        assert forall|c: int| 0 <= c < 4 implies #[trigger] shift[c] == instance_sum(
            HEIGHT,
            summed(*rest, post),
            c,
        ) by {
            lemma_summed_bounds(*rest, post, c);
        }
    }
    shift
}

/// Adds minus two times `post` to `row`, made positive by six times the prime. In the lanes that
/// do not hold an element 0 this adds a multiple of the prime.
fn subtract_twice(packed_3xprime: U64x4, post: U64x4, row: U64x4) -> (out: U64x4)
    ensures
        forall|c: int|
            0 <= c < 4 ==> #[trigger] out[c] == wrap(
                2 * packed_3xprime[c] - 2 * post[c] + row[c],
            ),
{
    let neg_s0: U64x4 = sub_lanes(packed_3xprime, post);
    let neg_2_s0: U64x4 = add_lanes(neg_s0, neg_s0);
    let out: U64x4 = add_lanes(neg_2_s0, row);
    proof {
        assert forall|c: int| 0 <= c < 4 implies #[trigger] out[c] == wrap(
            2 * packed_3xprime[c] - 2 * post[c] + row[c],
        ) by {
            assert(neg_s0[c] == wrap(packed_3xprime[c] - post[c]));
            assert(neg_2_s0[c] == wrap(neg_s0[c] + neg_s0[c]));
            lemma_first_row_wraps(packed_3xprime[c] as int, post[c] as int, row[c] as int);
        }
    }
    out
}

/// Everything of an internal round but the s-box and the reduction: `state` has lost the elements
/// 0 of the instances, and `post` holds what the s-box has made of them.
fn internal_linear_layer<const HEIGHT: usize, P2AVX2>(
    state: &mut Packed64bitM31Tensor<HEIGHT>,
    post: U64x4,
) where P2AVX2: Poseidon2AVX2Methods<HEIGHT>
    requires
        in_range(P2AVX2::field().prime, *old(state), P2AVX2::INTERNAL_SHIFTS, post),
    ensures
        forall|h: int, r: int, c: int|
            0 <= h < HEIGHT && in_block(r, c) ==> #[trigger] final(state).at(h, r, c) == unreduced(
                P2AVX2::field().prime,
                *old(state),
                P2AVX2::INTERNAL_SHIFTS,
                post,
                h,
                r,
                c,
            ),
{
    let ghost rest = *state;
    let ghost prime = P2AVX2::field().prime;
    let shift: U64x4 = instance_totals(state, post);

    // The diagonal of the matrix.
    let shifts: Packed64bitM31Tensor<HEIGHT> = P2AVX2::INTERNAL_SHIFTS;
    state.left_shift(shifts);
    let ghost shifted = *state;

    state.0[0][0] = subtract_twice(P2AVX2::PACKED_3XPRIME, post, state.0[0][0]);
    let ghost first = *state;
    proof {
        assert forall|h: int, r: int| 0 <= h < HEIGHT && 0 <= r < 4 && !(h == 0 && r == 0) implies
            #[trigger] first.0[h][r] == shifted.0[h][r] by {
        }
    }
    add_to_rows(state, shift);
    proof {
        P2AVX2::field_facts();
        assert forall|h: int, r: int, c: int|
            0 <= h < HEIGHT && in_block(r, c) implies #[trigger] state.at(h, r, c) == unreduced(
            prime,
            rest,
            shifts,
            post,
            h,
            r,
            c,
        ) by {
            lemma_unreduced_bounds(prime, rest, shifts, post, h, r, c);
            assert(rest.at(h, r, c) < radix());
            assert(shifts.at(h, r, c) <= 29 || rest.at(h, r, c) == 0);
            lemma_product_bounds(rest.at(h, r, c), shifts.at(h, r, c));
            let product = rest.at(h, r, c) * pow2(shifts.at(h, r, c) as nat);
            assert(shifted.at(h, r, c) == product);
            assert(shift[c] == instance_sum(HEIGHT, summed(rest, post), c));
            assert(state.at(h, r, c) == wrap(first.at(h, r, c) + shift[c]));
            if h == 0 && r == 0 {
                assert(P2AVX2::PACKED_3XPRIME[c] == 3 * prime);
                assert(first.0[0][0][c] == wrap(
                    2 * P2AVX2::PACKED_3XPRIME[c] - 2 * post[c] + shifted.0[0][0][c],
                ));
                lemma_wrap_add(6 * prime - 2 * post[c] + product, shift[c] as int);
            } else {
                assert(first.0[h][r] == shifted.0[h][r]);
            }
        }
    }
}

/// What is reduced in the place of element `i` of instance `k` is what an internal round has
/// there, up to multiples of the prime.
proof fn lemma_internal_element<const HEIGHT: usize>(
    field: FieldModel,
    state: Packed64bitM31Tensor<HEIGHT>,
    rest: Packed64bitM31Tensor<HEIGHT>,
    shifts: Packed64bitM31Tensor<HEIGHT>,
    lead: U64x4,
    post: U64x4,
    rc: u32,
    k: int,
    i: int,
)
    requires
        supported(HEIGHT),
        field.prime > 0,
        0 <= k < instances(HEIGHT),
        0 <= i < width(HEIGHT),
        forall|c: int|
            #![trigger lead[c]]
            0 <= c < 4 && is_lead(HEIGHT, c) ==> lead[c] == state.0[0][0][c] && rest.0[0][0][c]
                == 0,
        forall|h: int, r: int, c: int|
            0 <= h < HEIGHT && in_block(r, c) && !(h == 0 && r == 0 && is_lead(HEIGHT, c))
                ==> #[trigger] rest.at(h, r, c) == state.at(h, r, c),
        internal_sbox_output(field, HEIGHT, lead, rc, post),
        forall|k: int, i: int|
            0 <= k < instances(HEIGHT) && 1 <= i < width(HEIGHT) ==> #[trigger] shifts@[k][i]
                == shifts@[0][i],
    ensures
        monty_reduce(
            unreduced(
                field.prime,
                rest,
                shifts,
                post,
                block_of(HEIGHT, i),
                row_of(i),
                lane_of(HEIGHT, k, i),
            ),
            field.prime,
        ) == field.internal_round(shifts@[0], rc as int, state@[k])[i],
{
    let x = state@[k];
    let c0 = lead_lane(HEIGHT, k);
    let y = rest@[k].update(0, post[c0] as int);
    let z = x.update(0, field.internal_sbox(x[0] + rc));
    lemma_place_of_element(HEIGHT, k, 0);
    state.lemma_view_at(k, 0);
    rest.lemma_view_at(k, 0);
    assert(is_lead(HEIGHT, c0));
    assert(lead[c0] == state.0[0][0][c0]);
    assert(congruent(post[c0] as int, field.internal_sbox(lead[c0] + rc), field.prime));
    assert forall|c: int| 0 <= c < 4 && !is_lead(HEIGHT, c) implies (#[trigger] post[c]) as int
        % field.prime == 0 by {
        lemma_small_mod(0, field.prime as nat);
    }
    lemma_unreduced_meaning(field.prime, rest, shifts, post, k, i);
    assert forall|j: int| 0 <= j < y.len() implies congruent(
        #[trigger] y[j],
        z[j],
        field.prime,
    ) by {
        if j > 0 {
            lemma_place_of_element(HEIGHT, k, j);
            state.lemma_view_at(k, j);
            rest.lemma_view_at(k, j);
            let h = block_of(HEIGHT, j);
            let c = lane_of(HEIGHT, k, j);
            assert(rest.at(h, j % 4, c) == state.at(h, j % 4, c));
        }
    }
    lemma_internal_layer_congruent(shifts@[k], y, z, field.prime);
    assert(congruent(
        internal_layer(shifts@[k], y)[i],
        internal_layer(shifts@[k], z)[i],
        field.prime,
    ));
    assert(internal_layer(shifts@[k], z)[i] == internal_layer(shifts@[0], z)[i]) by {
        if i > 0 {
            assert(shifts@[k][i] == shifts@[0][i]);
        }
    }
    lemma_monty_reduce_congruent(
        unreduced(
            field.prime,
            rest,
            shifts,
            post,
            block_of(HEIGHT, i),
            row_of(i),
            lane_of(HEIGHT, k, i),
        ),
        internal_layer(shifts@[0], z)[i],
        field.prime,
    );
}

/// The first row without what does not belong to an element 0.
proof fn lemma_lead_row<const HEIGHT: usize>(state: Packed64bitM31Tensor<HEIGHT>, lead: U64x4)
    requires
        supported(HEIGHT),
        forall|c: int|
            #![trigger lead[c]]
            0 <= c < 4 ==> lead[c] == if is_lead(HEIGHT, c) {
                state.0[0][0][c]
            } else {
                0
            },
    ensures
        lead == lead_row(HEIGHT, state@),
{
    lemma_row_in(state, 0, 0);
    let row = lead_row(HEIGHT, state@);
    assert forall|c: int| 0 <= c < 4 implies lead[c] == row[c] by {
        assert(c == 0 || c == 1 || c == 2 || c == 3);
    }
    assert(lead =~= row);
}

/// What is reduced, from the instances.
proof fn lemma_unreduced_instances<const HEIGHT: usize, P2AVX2: Poseidon2AVX2Methods<HEIGHT>>(
    state: Packed64bitM31Tensor<HEIGHT>,
    rest: Packed64bitM31Tensor<HEIGHT>,
    post: U64x4,
    k: int,
    i: int,
)
    requires
        supported(HEIGHT),
        0 <= k < instances(HEIGHT),
        0 <= i < width(HEIGHT),
        rest@[k] == state@[k].update(0, 0),
    ensures
        unreduced(
            P2AVX2::field().prime,
            rest,
            P2AVX2::INTERNAL_SHIFTS,
            post,
            block_of(HEIGHT, i),
            row_of(i),
            lane_of(HEIGHT, k, i),
        ) == unreduced_instances::<HEIGHT, P2AVX2>(post, state@)[k][i],
{
    let shifts = P2AVX2::INTERNAL_SHIFTS;
    let h = block_of(HEIGHT, i);
    let r = row_of(i);
    let c = lane_of(HEIGHT, k, i);
    lemma_place_of_element(HEIGHT, k, i);
    rest.lemma_view_at(k, i);
    shifts.lemma_view_at(k, i);
    rest.lemma_instance_total(k, c);
    let product = rest.at(h, r, c) * pow2(shifts.at(h, r, c) as nat);
    if i == 0 {
        assert(product == 0) by (nonlinear_arith)
            requires
                product == rest.at(h, r, c) * pow2(shifts.at(h, r, c) as nat),
                rest.at(h, r, c) == 0,
        ;
    }
    assert(instance_sum(HEIGHT, summed(rest, post), c) == instance_sum(
        HEIGHT,
        rest.lane_sums(),
        c,
    ) + instance_sum(HEIGHT, lane_values(post), c));
}

/// Taking away the elements 0 takes away element 0 of every instance.
proof fn lemma_rest<const HEIGHT: usize>(
    state: Packed64bitM31Tensor<HEIGHT>,
    rest: Packed64bitM31Tensor<HEIGHT>,
    k: int,
)
    requires
        supported(HEIGHT),
        0 <= k < instances(HEIGHT),
        forall|c: int|
            0 <= c < 4 && is_lead(HEIGHT, c) ==> #[trigger] rest.0[0][0][c] == 0,
        forall|h: int, r: int, c: int|
            0 <= h < HEIGHT && in_block(r, c) && !(h == 0 && r == 0 && is_lead(HEIGHT, c))
                ==> #[trigger] rest.at(h, r, c) == state.at(h, r, c),
    ensures
        rest@[k] == state@[k].update(0, 0),
{
    let x = rest@[k];
    let y = state@[k].update(0, 0);
    assert forall|i: int| 0 <= i < width(HEIGHT) implies x[i] == y[i] by {
        lemma_place_of_element(HEIGHT, k, i);
        rest.lemma_view_at(k, i);
        state.lemma_view_at(k, i);
        let h = block_of(HEIGHT, i);
        let c = lane_of(HEIGHT, k, i);
        if i == 0 {
            assert(is_lead(HEIGHT, c));
            assert(rest.0[0][0][c] == 0);
        } else {
            assert(rest.at(h, row_of(i), c) == state.at(h, row_of(i), c));
        }
    }
    assert(x =~= y);
}

/// Without the elements 0 of the instances, the shifts are small wherever there is something to
/// shift.
proof fn lemma_rest_shifts<const HEIGHT: usize>(
    rest: Packed64bitM31Tensor<HEIGHT>,
    shifts: Packed64bitM31Tensor<HEIGHT>,
    h: int,
    r: int,
    c: int,
)
    requires
        supported(HEIGHT),
        0 <= h < HEIGHT,
        in_block(r, c),
        h == 0 && r == 0 ==> (is_lead(HEIGHT, c) ==> rest.at(0, 0, c) == 0),
        forall|k: int, i: int|
            0 <= k < instances(HEIGHT) && 1 <= i < width(HEIGHT) ==> #[trigger] shifts@[k][i]
                <= 29,
    ensures
        shifts.at(h, r, c) <= 29 || rest.at(h, r, c) == 0,
{
    lemma_element_of_place(HEIGHT, h, r, c);
    let k = instance_at(HEIGHT, c);
    let i = element_at(HEIGHT, h, r, c);
    shifts.lemma_view_at(k, i);
    if i > 0 {
        assert(shifts@[k][i] <= 29);
    }
}

/// A single internal round.
///
/// The elements of `state` must be below `2^32`, but need not be canonical, and `rc` must be
/// canonical. The elements of the result are below twice the prime, and so below `2^32`, and may
/// not be canonical.
pub fn internal_round<const HEIGHT: usize, P2AVX2>(
    state: &mut Packed64bitM31Tensor<HEIGHT>,
    rc: u32,
) where P2AVX2: Poseidon2AVX2Methods<HEIGHT>
    requires
        supported(HEIGHT),
        old(state).all_below(radix()),
        rc < P2AVX2::field().prime,
    ensures
        final(state)@ == packed_internal_round::<HEIGHT, P2AVX2>(rc, old(state)@),
        final(state).all_below(2 * P2AVX2::field().prime),
        forall|k: int|
            0 <= k < instances(HEIGHT) ==> all_congruent(
                #[trigger] final(state)@[k],
                P2AVX2::field().internal_round(
                    P2AVX2::INTERNAL_SHIFTS@[0],
                    rc as int,
                    old(state)@[k],
                ),
                P2AVX2::field().prime,
            ),
{
    let ghost s0 = *state;
    let ghost field = P2AVX2::field();
    let ghost shifts = P2AVX2::INTERNAL_SHIFTS;
    proof {
        P2AVX2::field_facts();
        P2AVX2::shift_facts();
        assert forall|c: int| 0 <= c < 4 implies #[trigger] s0.at(0, 0, c) < radix() by {
        }
    }
    let (lead, rem): (U64x4, U64x4) = split::<HEIGHT>(state.0[0][0]);
    proof {
        assert forall|c: int| 0 <= c < 4 implies (#[trigger] lead[c]) < radix() && (!is_lead(
            HEIGHT,
            c,
        ) ==> lead[c] == 0) by {
            assert(s0.at(0, 0, c) < radix());
        }
    }
    let post: U64x4 = P2AVX2::internal_sbox(lead, rc);
    state.0[0][0] = rem;
    let ghost rest = *state;
    proof {
        assert forall|h: int, r: int, c: int| 0 <= h < HEIGHT && in_block(r, c) implies {
            &&& #[trigger] rest.at(h, r, c) < radix()
            &&& shifts.at(h, r, c) <= 29 || rest.at(h, r, c) == 0
        } by {
            assert(s0.at(h, r, c) < radix());
            lemma_rest_shifts(rest, shifts, h, r, c);
        }
        assert(in_range(field.prime, rest, shifts, post));
    }
    internal_linear_layer::<HEIGHT, P2AVX2>(state, post);
    let ghost s1 = *state;
    proof {
        assert forall|h: int, r: int, c: int|
            0 <= h < HEIGHT && in_block(r, c) implies #[trigger] s1.at(h, r, c) < radix()
            * field.prime by {
            lemma_unreduced_bounds(field.prime, rest, shifts, post, h, r, c);
        }
        lemma_lead_row(s0, lead);
        let wanted = unreduced_instances::<HEIGHT, P2AVX2>(post, s0@);
        assert forall|k: int, i: int|
            0 <= k < instances(HEIGHT) && 0 <= i < width(HEIGHT) implies #[trigger] s1@[k][i]
            == wanted[k][i] by {
            s1.lemma_view_at(k, i);
            lemma_rest(s0, rest, k);
            lemma_unreduced_instances::<HEIGHT, P2AVX2>(s0, rest, post, k, i);
        }
        lemma_same_instances(HEIGHT, s1@, wanted);
    }
    P2AVX2::partial_reduce(state);
    proof {
        lemma_partially_reduced::<HEIGHT, P2AVX2>(s1, *state);
        assert forall|k: int| 0 <= k < instances(HEIGHT) implies all_congruent(
            #[trigger] state@[k],
            field.internal_round(shifts@[0], rc as int, s0@[k]),
            field.prime,
        ) by {
            assert forall|i: int| 0 <= i < width(HEIGHT) implies congruent(
                #[trigger] state@[k][i],
                field.internal_round(shifts@[0], rc as int, s0@[k])[i],
                field.prime,
            ) by {
                state.lemma_view_at(k, i);
                lemma_internal_element(field, s0, rest, shifts, lead, post, rc, k, i);
                let value = s1.at(block_of(HEIGHT, i), row_of(i), lane_of(HEIGHT, k, i));
                lemma_mod_twice(value * radix_inverse(field.prime), field.prime);
            }
        }
    }
}

/// One internal round for each element of `round_constants`.
pub fn internal_rounds<const HEIGHT: usize, P2AVX2>(
    state: &mut Packed64bitM31Tensor<HEIGHT>,
    round_constants: &[u32],
) where P2AVX2: Poseidon2AVX2Methods<HEIGHT>
    requires
        round_constants@.len() > 0 ==> supported(HEIGHT) && old(state).all_below(radix()),
        forall|j: int|
            0 <= j < round_constants@.len() ==> #[trigger] round_constants@[j]
                < P2AVX2::field().prime,
    ensures
        final(state)@ == packed_internal_rounds::<HEIGHT, P2AVX2>(round_constants@, old(state)@),
        round_constants@.len() > 0 ==> final(state).all_below(2 * P2AVX2::field().prime),
        round_constants@.len() == 0 ==> *final(state) == *old(state),
        forall|k: int|
            0 <= k < instances(HEIGHT) ==> all_congruent(
                #[trigger] final(state)@[k],
                P2AVX2::field().internal_rounds(
                    P2AVX2::INTERNAL_SHIFTS@[0],
                    round_constants@,
                    old(state)@[k],
                ),
                P2AVX2::field().prime,
            ),
{
    let ghost s0 = *state;
    let ghost field = P2AVX2::field();
    let ghost shifts = P2AVX2::INTERNAL_SHIFTS@[0];
    let ghost rcs = round_constants@;
    let mut j: usize = 0;
    proof {
        P2AVX2::field_facts();
        assert(rcs.take(0) =~= Seq::empty());
    }
    while j < round_constants.len()
        invariant
            rcs.len() > 0 ==> supported(HEIGHT) && s0.all_below(radix()),
            field == P2AVX2::field(),
            shifts == P2AVX2::INTERNAL_SHIFTS@[0],
            rcs == round_constants@,
            0 < field.prime < 0x8000_0000,
            0 <= j <= rcs.len(),
            forall|j: int| 0 <= j < rcs.len() ==> #[trigger] rcs[j] < field.prime,
            j == 0 ==> *state == s0,
            state@ == packed_internal_rounds::<HEIGHT, P2AVX2>(rcs.take(j as int), s0@),
            j > 0 ==> state.all_below(2 * field.prime),
            forall|k: int|
                0 <= k < instances(HEIGHT) ==> all_congruent(
                    #[trigger] state@[k],
                    field.internal_rounds(shifts, rcs.take(j as int), s0@[k]),
                    field.prime,
                ),
        decreases rcs.len() - j,
    {
        let ghost before = *state;
        proof {
            if j > 0 {
                before.lemma_below_greater(2 * field.prime, radix());
            }
        }
        internal_round::<HEIGHT, P2AVX2>(state, round_constants[j]);
        proof {
            assert(rcs.take(j + 1).drop_last() =~= rcs.take(j as int));
            assert forall|k: int| 0 <= k < instances(HEIGHT) implies all_congruent(
                #[trigger] state@[k],
                field.internal_rounds(shifts, rcs.take(j + 1), s0@[k]),
                field.prime,
            ) by {
                let done = rcs.take(j + 1);
                assert(done.drop_last() =~= rcs.take(j as int));
                assert(all_congruent(
                    before@[k],
                    field.internal_rounds(shifts, rcs.take(j as int), s0@[k]),
                    field.prime,
                ));
                field.lemma_internal_round_congruent(
                    shifts,
                    rcs[j as int] as int,
                    before@[k],
                    field.internal_rounds(shifts, rcs.take(j as int), s0@[k]),
                );
            }
        }
        j += 1;
    }
    proof {
        assert(rcs.take(j as int) =~= rcs);
    }
}

} // verus!
