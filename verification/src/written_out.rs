//! The building blocks, written out.
//!
//! The laws say in numbers and lanes what the spec functions mean that the contracts are written
//! with, each without the help of the others.
use crate::external::{all_canonical, external_input_fits, instance_constants, layer_fits};
use crate::field::{
    all_congruent, congruent, lemma_monty_reduce_unique, monty_reduce, radix,
};
use crate::helpers::{
    canonical_instances, internal_sbox_input, internal_sbox_output, internal_sboxed,
    Poseidon2AVX2Helpers,
};
use crate::lanes::{lane_values, wrap, U64x4};
use crate::layout::{
    block_of, element_at, instance_at, instance_sum, instances, is_lead, lane_of, partner, row_of,
    supported, width,
};
use crate::model::{
    add_column_sums, aes_mix, column_sum, external_layer, internal_layer, sum_first, FieldModel,
};
use crate::number_theory::{coprime, is_prime};
use crate::packed::views;
use crate::tensor::{aes_at, in_block, row_total, Packed64bitM31Tensor};
use vstd::arithmetic::div_mod::{
    lemma_mod_bound, lemma_mod_equivalence, lemma_mod_twice, lemma_small_mod,
};
use vstd::arithmetic::power::pow;
use vstd::arithmetic::power2::pow2;
use vstd::prelude::*;

verus! {

/// What 64 bits keep of a number lies in `[0, 2^64)` and differs from it by a multiple of `2^64`.
pub proof fn law_wrap(x: int)
    ensures
        0 <= wrap(x) < 0x1_0000_0000_0000_0000,
        (x - wrap(x)) % 0x1_0000_0000_0000_0000 == 0,
{
}

/// There are layouts for the heights 1, 2, 3 and 4, which hold 1, 2, 2 and 4 instances of 16, 16,
/// 24 and 16 elements. A block has four rows and four lanes.
pub proof fn law_shape(height: usize, r: int, c: int)
    ensures
        supported(height) <==> height == 1 || height == 2 || height == 3 || height == 4,
        height == 1 ==> instances(height) == 1 && width(height) == 16,
        height == 2 ==> instances(height) == 2 && width(height) == 16,
        height == 3 ==> instances(height) == 2 && width(height) == 24,
        height == 4 ==> instances(height) == 4 && width(height) == 16,
        in_block(r, c) <==> (r == 0 || r == 1 || r == 2 || r == 3) && (c == 0 || c == 1 || c == 2
            || c == 3),
{
}

/// Where the elements stand. In height 1 the element in row `r` and lane `c` is number
/// `4 * c + r`. In heights 2 and 3 an instance has two lanes next to each other, and in height 4
/// one; it goes down these lanes, and then on to the next block.
pub proof fn law_places(h: int, r: int, c: int)
    requires
        0 <= h,
        0 <= r < 4,
        0 <= c < 4,
    ensures
        h == 0 ==> block_of(1, 4 * c + r) == h && row_of(4 * c + r) == r && lane_of(
            1,
            0,
            4 * c + r,
        ) == c,
        h == 0 ==> instance_at(1, c) == 0 && element_at(1, h, r, c) == 4 * c + r,
        c < 2 ==> block_of(2, 8 * h + 4 * c + r) == h && lane_of(2, 0, 8 * h + 4 * c + r) == c,
        c < 2 ==> block_of(3, 8 * h + 4 * c + r) == h && lane_of(3, 0, 8 * h + 4 * c + r) == c,
        c < 2 ==> lane_of(2, 1, 8 * h + 4 * c + r) == c + 2,
        c < 2 ==> lane_of(3, 1, 8 * h + 4 * c + r) == c + 2,
        c < 2 ==> row_of(8 * h + 4 * c + r) == r,
        c < 2 ==> instance_at(2, c) == 0 && element_at(2, h, r, c) == 8 * h + 4 * c + r,
        c < 2 ==> instance_at(3, c) == 0 && element_at(3, h, r, c) == 8 * h + 4 * c + r,
        c < 2 ==> instance_at(2, c + 2) == 1 && element_at(2, h, r, c + 2) == 8 * h + 4 * c + r,
        c < 2 ==> instance_at(3, c + 2) == 1 && element_at(3, h, r, c + 2) == 8 * h + 4 * c + r,
        block_of(4, 4 * h + r) == h && row_of(4 * h + r) == r && lane_of(4, c, 4 * h + r) == c,
        instance_at(4, c) == c && element_at(4, h, r, c) == 4 * h + r,
{
}

/// Which lanes of the first row hold an element 0, which lanes stand together, and which lanes are
/// summed for an instance.
pub proof fn law_lanes_of_instances(v: Seq<int>, a: U64x4, c: int)
    requires
        0 <= c < 4,
    ensures
        is_lead(1, c) <==> c == 0,
        is_lead(2, c) <==> c == 0 || c == 2,
        is_lead(3, c) <==> c == 0 || c == 2,
        is_lead(4, c),
        partner(0) == 1 && partner(1) == 0 && partner(2) == 3 && partner(3) == 2,
        instance_sum(1, v, c) == v[0] + v[1] + v[2] + v[3],
        c < 2 ==> instance_sum(2, v, c) == v[0] + v[1] && instance_sum(3, v, c) == v[0] + v[1],
        c >= 2 ==> instance_sum(2, v, c) == v[2] + v[3] && instance_sum(3, v, c) == v[2] + v[3],
        instance_sum(4, v, c) == v[c],
        lane_values(a).len() == 4,
        lane_values(a)[c] == a[c],
        row_total(a) == a[0] + a[1] + a[2] + a[3],
{
}

/// What a tensor shows of its lanes.
pub proof fn law_view<const HEIGHT: usize>(
    t: Packed64bitM31Tensor<HEIGHT>,
    h: int,
    r: int,
    c: int,
)
    requires
        0 <= h < HEIGHT,
        0 <= r < 4,
        0 <= c < 4,
    ensures
        t.at(h, r, c) == t.0[h][r][c],
        HEIGHT == 1 ==> t@.len() == 1 && t@[0].len() == 16,
        HEIGHT == 1 ==> t@[0][4 * c + r] == t.0[0][r][c],
        HEIGHT == 2 ==> t@.len() == 2 && t@[0].len() == 16 && t@[1].len() == 16,
        HEIGHT == 3 ==> t@.len() == 2 && t@[0].len() == 24 && t@[1].len() == 24,
        (HEIGHT == 2 || HEIGHT == 3) && c < 2 ==> t@[0][8 * h + 4 * c + r] == t.0[h][r][c],
        (HEIGHT == 2 || HEIGHT == 3) && c >= 2 ==> t@[1][8 * h + 4 * (c - 2) + r] == t.0[h][r][c],
        HEIGHT == 4 ==> t@.len() == 4 && t@[c].len() == 16,
        HEIGHT == 4 ==> t@[c][4 * h + r] == t.0[h][r][c],
{
}

/// The lanes in memory order, as one instance after the other.
pub proof fn law_consecutive<const HEIGHT: usize>(
    t: Packed64bitM31Tensor<HEIGHT>,
    h: int,
    r: int,
    c: int,
)
    requires
        0 <= h < HEIGHT,
        0 <= r < 4,
        0 <= c < 4,
    ensures
        t.flat().len() == 16 * HEIGHT,
        t.flat()[16 * h + 4 * r + c] == t.0[h][r][c],
        HEIGHT == 1 ==> t.consecutive().len() == 1 && t.consecutive()[0].len() == 16,
        HEIGHT == 2 ==> t.consecutive().len() == 2 && t.consecutive()[h].len() == 16,
        HEIGHT == 3 ==> t.consecutive().len() == 2 && t.consecutive()[0].len() == 24
            && t.consecutive()[1].len() == 24,
        HEIGHT == 4 ==> t.consecutive().len() == 4 && t.consecutive()[h].len() == 16,
        HEIGHT == 1 || HEIGHT == 2 || HEIGHT == 4 ==> t.consecutive()[h][4 * r + c]
            == t.0[h][r][c],
        HEIGHT == 3 && 16 * h + 4 * r + c < 24 ==> t.consecutive()[0][16 * h + 4 * r + c]
            == t.0[h][r][c],
        HEIGHT == 3 && 16 * h + 4 * r + c >= 24 ==> t.consecutive()[1][16 * h + 4 * r + c - 24]
            == t.0[h][r][c],
{
    let n = 16 * h + 4 * r + c;
    assert(n / 16 == h);
    assert((n / 4) % 4 == r);
    assert(n % 4 == c);
    if HEIGHT == 3 {
        assert(width(HEIGHT) * 1 == 24);
    } else if supported(HEIGHT) {
        assert(width(HEIGHT) * h == 16 * h);
    }
}

/// A bound on a tensor is a bound on every lane.
pub proof fn law_all_below<const HEIGHT: usize>(t: Packed64bitM31Tensor<HEIGHT>, bound: int)
    ensures
        t.all_below(bound) <==> forall|h: int, r: int, c: int|
            0 <= h < HEIGHT && 0 <= r < 4 && 0 <= c < 4 ==> #[trigger] t.0[h][r][c] < bound,
{
    if t.all_below(bound) {
        assert forall|h: int, r: int, c: int|
            0 <= h < HEIGHT && 0 <= r < 4 && 0 <= c < 4 implies #[trigger] t.0[h][r][c]
            < bound by {
            assert(t.at(h, r, c) < bound);
        }
    }
    if forall|h: int, r: int, c: int|
        0 <= h < HEIGHT && 0 <= r < 4 && 0 <= c < 4 ==> #[trigger] t.0[h][r][c] < bound {
        assert forall|h: int, r: int, c: int|
            0 <= h < HEIGHT && in_block(r, c) implies #[trigger] t.at(h, r, c) < bound by {
            assert(t.0[h][r][c] < bound);
        }
    }
}

/// The rows of the product that `mat_mul_aes` computes.
pub proof fn law_aes_rows(m: [U64x4; 4], c: int)
    requires
        0 <= c < 4,
    ensures
        aes_at(m, 0, c) == 2 * m[0][c] + 3 * m[1][c] + m[2][c] + m[3][c],
        aes_at(m, 1, c) == m[0][c] + 2 * m[1][c] + 3 * m[2][c] + m[3][c],
        aes_at(m, 2, c) == m[0][c] + m[1][c] + 2 * m[2][c] + 3 * m[3][c],
        aes_at(m, 3, c) == 3 * m[0][c] + m[1][c] + m[2][c] + 2 * m[3][c],
{
}

/// A lane of no blocks sums up to zero, and each block adds its four rows.
pub proof fn law_lane_sum<const HEIGHT: usize>(
    t: Packed64bitM31Tensor<HEIGHT>,
    c: int,
    h: nat,
)
    ensures
        t.lane_sum(c, 0) == 0,
        t.lane_sum(c, h + 1) == t.lane_sum(c, h) + t.0[h as int][0][c] + t.0[h as int][1][c]
            + t.0[h as int][2][c] + t.0[h as int][3][c],
{
}

/// What the product from the right adds to an element: in its row, the lanes of its instance in
/// all blocks.
pub proof fn law_plus_row_sum<const HEIGHT: usize>(
    t: Packed64bitM31Tensor<HEIGHT>,
    h: int,
    r: int,
    c: int,
)
    requires
        0 <= h < HEIGHT,
        0 <= r < 4,
        0 <= c < 4,
    ensures
        ({
            let d: int = if c < 2 {
                0
            } else {
                2
            };
            &&& HEIGHT == 1 ==> t.plus_row_sum(h, r, c) == t.0[h][r][c] + (t.0[0][r][0]
                + t.0[0][r][1] + t.0[0][r][2] + t.0[0][r][3])
            &&& HEIGHT == 2 ==> t.plus_row_sum(h, r, c) == t.0[h][r][c] + (t.0[0][r][d]
                + t.0[0][r][d + 1] + t.0[1][r][d] + t.0[1][r][d + 1])
            &&& HEIGHT == 3 ==> t.plus_row_sum(h, r, c) == t.0[h][r][c] + (t.0[0][r][d]
                + t.0[0][r][d + 1] + t.0[1][r][d] + t.0[1][r][d + 1] + t.0[2][r][d]
                + t.0[2][r][d + 1])
            &&& HEIGHT == 4 ==> t.plus_row_sum(h, r, c) == t.0[h][r][c] + (t.0[0][r][c]
                + t.0[1][r][c] + t.0[2][r][c] + t.0[3][r][c])
        }),
{
    reveal_with_fuel(Packed64bitM31Tensor::lane_row_sum, 5);
}

/// The same on the elements of an instance: element `4 * a + r` gets the elements `r`, `4 + r`,
/// `8 + r` and so on.
pub proof fn law_add_column_sums(x: Seq<int>, a: int, r: int)
    requires
        0 <= r < 4,
        0 <= a,
        4 * a < x.len(),
    ensures
        add_column_sums(x).len() == x.len(),
        x.len() == 16 ==> add_column_sums(x)[4 * a + r] == x[4 * a + r] + (x[r] + x[4 + r] + x[8
            + r] + x[12 + r]),
        x.len() == 24 ==> add_column_sums(x)[4 * a + r] == x[4 * a + r] + (x[r] + x[4 + r] + x[8
            + r] + x[12 + r] + x[16 + r] + x[20 + r]),
{
    reveal_with_fuel(column_sum, 7);
}

/// The external linear layer, with its matrix written out: the matrix
///
/// ```text
/// [ 2 3 1 1 ]
/// [ 1 2 3 1 ]
/// [ 1 1 2 3 ]
/// [ 3 1 1 2 ]
/// ```
///
/// on every four elements that stand together, taken twice for the four that element `4 * a + r`
/// belongs to and once for the others.
pub proof fn law_external_layer(x: Seq<int>, a: int, r: int)
    requires
        0 <= r < 4,
        0 <= a,
        4 * a < x.len(),
    ensures
        external_layer(x).len() == x.len(),
        x.len() == 16 ==> ({
            let q0 = 2 * x[r] + 3 * x[(r + 1) % 4] + x[(r + 2) % 4]
                + x[(r + 3) % 4];
            let q1 = 2 * x[4 + r] + 3 * x[4 + (r + 1) % 4] + x[4 + (r + 2) % 4]
                + x[4 + (r + 3) % 4];
            let q2 = 2 * x[8 + r] + 3 * x[8 + (r + 1) % 4] + x[8 + (r + 2) % 4]
                + x[8 + (r + 3) % 4];
            let q3 = 2 * x[12 + r] + 3 * x[12 + (r + 1) % 4] + x[12 + (r + 2) % 4]
                + x[12 + (r + 3) % 4];
            external_layer(x)[4 * a + r] == q0 + q1 + q2 + q3 + if a == 0 {
                q0
            } else if a == 1 {
                q1
            } else if a == 2 {
                q2
            } else {
                q3
            }
        }),
        x.len() == 24 ==> ({
            let q0 = 2 * x[r] + 3 * x[(r + 1) % 4] + x[(r + 2) % 4]
                + x[(r + 3) % 4];
            let q1 = 2 * x[4 + r] + 3 * x[4 + (r + 1) % 4] + x[4 + (r + 2) % 4]
                + x[4 + (r + 3) % 4];
            let q2 = 2 * x[8 + r] + 3 * x[8 + (r + 1) % 4] + x[8 + (r + 2) % 4]
                + x[8 + (r + 3) % 4];
            let q3 = 2 * x[12 + r] + 3 * x[12 + (r + 1) % 4] + x[12 + (r + 2) % 4]
                + x[12 + (r + 3) % 4];
            let q4 = 2 * x[16 + r] + 3 * x[16 + (r + 1) % 4] + x[16 + (r + 2) % 4]
                + x[16 + (r + 3) % 4];
            let q5 = 2 * x[20 + r] + 3 * x[20 + (r + 1) % 4] + x[20 + (r + 2) % 4]
                + x[20 + (r + 3) % 4];
            external_layer(x)[4 * a + r] == q0 + q1 + q2 + q3 + q4 + q5 + if a == 0 {
                q0
            } else if a == 1 {
                q1
            } else if a == 2 {
                q2
            } else if a == 3 {
                q3
            } else if a == 4 {
                q4
            } else {
                q5
            }
        }),
{
    let m = aes_mix(x);
    assert forall|b: int| 0 <= b && 4 * b < x.len() && x.len() % 4 == 0 implies #[trigger] m[4 * b
        + r] == 2 * x[4 * b + r] + 3 * x[4 * b + (r + 1) % 4] + x[4 * b + (r + 2) % 4] + x[4 * b + (
    r + 3) % 4] by {
        let i = 4 * b + r;
        assert(i / 4 == b);
        assert((i + 1) % 4 == (r + 1) % 4);
        assert((i + 2) % 4 == (r + 2) % 4);
        assert((i + 3) % 4 == (r + 3) % 4);
    }
    if x.len() == 16 || x.len() == 24 {
        assert(x.len() % 4 == 0);
        law_add_column_sums(m, a, r);
        assert(m[4 * 0 + r] == m[r]);
        assert(m[4 * 1 + r] == m[4 + r]);
        assert(m[4 * 2 + r] == m[8 + r]);
        assert(m[4 * 3 + r] == m[12 + r]);
        if x.len() == 24 {
            assert(m[4 * 4 + r] == m[16 + r]);
            assert(m[4 * 5 + r] == m[20 + r]);
        }
        assert(m[4 * a + r] == 2 * x[4 * a + r] + 3 * x[4 * a + (r + 1) % 4] + x[4 * a + (r + 2)
            % 4] + x[4 * a + (r + 3) % 4]);
    }
}

/// The external linear layer is additive.
pub proof fn law_external_layer_is_additive(x: Seq<int>, y: Seq<int>)
    requires
        x.len() == 16 || x.len() == 24,
        y.len() == x.len(),
    ensures
        external_layer(Seq::new(x.len(), |i: int| x[i] + y[i])) == Seq::new(
            x.len(),
            |i: int| external_layer(x)[i] + external_layer(y)[i],
        ),
        external_layer(Seq::new(x.len(), |i: int| 0)) == Seq::new(x.len(), |i: int| 0int),
{
    let s = Seq::new(x.len(), |i: int| x[i] + y[i]);
    let o: Seq<int> = Seq::new(x.len(), |i: int| 0);
    assert forall|i: int| 0 <= i < x.len() implies external_layer(s)[i] == external_layer(x)[i]
        + external_layer(y)[i] && external_layer(o)[i] == 0 by {
        let a = i / 4;
        let r = i % 4;
        assert(i == 4 * a + r);
        law_external_layer(s, a, r);
        law_external_layer(x, a, r);
        law_external_layer(y, a, r);
        law_external_layer(o, a, r);
    }
    assert(external_layer(s) =~= Seq::new(
        x.len(),
        |i: int| external_layer(x)[i] + external_layer(y)[i],
    ));
    assert(external_layer(o) =~= o);
}

/// The sum of the elements of an instance.
pub proof fn law_sum(x: Seq<int>)
    ensures
        x.len() == 16 ==> sum_first(x, 16) == (
            x[0] + x[1] + x[2] + x[3] + x[4] + x[5] + x[6] + x[7] + x[8] + x[9] + x[10] + x[11]
                + x[12] + x[13] + x[14] + x[15]),
        x.len() == 24 ==> sum_first(x, 24) == (
            x[0] + x[1] + x[2] + x[3] + x[4] + x[5] + x[6] + x[7] + x[8] + x[9] + x[10] + x[11]
                + x[12] + x[13] + x[14] + x[15] + x[16] + x[17] + x[18] + x[19] + x[20] + x[21]
                + x[22] + x[23]),
{
    reveal_with_fuel(sum_first, 25);
}

/// The internal linear layer, with its matrix written out: ones, and on the diagonal -2 and the
/// powers of two that the shifts give.
pub proof fn law_internal_layer(shifts: Seq<int>, x: Seq<int>, i: int)
    requires
        0 <= i < x.len(),
    ensures
        internal_layer(shifts, x).len() == x.len(),
        x.len() == 16 ==> internal_layer(shifts, x)[i] == (
            x[0] + x[1] + x[2] + x[3] + x[4] + x[5] + x[6] + x[7] + x[8] + x[9] + x[10]
                    + x[11] + x[12] + x[13] + x[14] + x[15]) + if i == 0 {
            -2 * x[0]
        } else {
            x[i] * pow2(shifts[i] as nat)
        },
        x.len() == 24 ==> internal_layer(shifts, x)[i] == (
            x[0] + x[1] + x[2] + x[3] + x[4] + x[5] + x[6] + x[7] + x[8] + x[9] + x[10]
                    + x[11] + x[12] + x[13] + x[14] + x[15] + x[16] + x[17] + x[18] + x[19] + x[20]
                    + x[21] + x[22] + x[23]) + if i == 0 {
            -2 * x[0]
        } else {
            x[i] * pow2(shifts[i] as nat)
        },
{
    law_sum(x);
}

/// The internal linear layer is additive, and takes zero to zero.
pub proof fn law_internal_layer_is_additive(shifts: Seq<int>, x: Seq<int>, y: Seq<int>)
    requires
        x.len() == 16 || x.len() == 24,
        y.len() == x.len(),
    ensures
        internal_layer(shifts, Seq::new(x.len(), |i: int| x[i] + y[i])) == Seq::new(
            x.len(),
            |i: int| internal_layer(shifts, x)[i] + internal_layer(shifts, y)[i],
        ),
        internal_layer(shifts, Seq::new(x.len(), |i: int| 0)) == Seq::new(x.len(), |i: int| 0int),
{
    let s = Seq::new(x.len(), |i: int| x[i] + y[i]);
    let o: Seq<int> = Seq::new(x.len(), |i: int| 0);
    assert forall|i: int| 0 <= i < x.len() implies internal_layer(shifts, s)[i] == internal_layer(
        shifts,
        x,
    )[i] + internal_layer(shifts, y)[i] && internal_layer(shifts, o)[i] == 0 by {
        law_internal_layer(shifts, s, i);
        law_internal_layer(shifts, x, i);
        law_internal_layer(shifts, y, i);
        law_internal_layer(shifts, o, i);
        let d = pow2(shifts[i] as nat);
        assert((x[i] + y[i]) * d == x[i] * d + y[i] * d) by (nonlinear_arith);
        assert(0 * d == 0) by (nonlinear_arith);
    }
    assert(internal_layer(shifts, s) =~= Seq::new(
        x.len(),
        |i: int| internal_layer(shifts, x)[i] + internal_layer(shifts, y)[i],
    ));
    assert(internal_layer(shifts, o) =~= o);
}

/// Two numbers are congruent if the modulus divides their difference, and sequences if they have
/// the same length and congruent elements.
pub proof fn law_congruent(a: int, b: int, x: Seq<int>, y: Seq<int>, p: int)
    requires
        p > 0,
    ensures
        congruent(a, b, p) <==> (a - b) % p == 0,
        all_congruent(x, y, p) <==> x.len() == y.len() && forall|i: int|
            0 <= i < x.len() ==> (#[trigger] x[i] - y[i]) % p == 0,
{
    lemma_mod_equivalence(a, b, p);
    assert forall|i: int| 0 <= i < x.len() implies (congruent(#[trigger] x[i], y[i], p) <==> (x[i]
        - y[i]) % p == 0) by {
        lemma_mod_equivalence(x[i], y[i], p);
    }
}

/// The Montgomery reduction divides by `2^32` modulo `p`: it is the one residue that gives back
/// `x` when it is multiplied by `2^32`.
pub proof fn law_monty_reduce(x: int, y: int, p: int)
    requires
        p > 1,
        p % 2 == 1,
    ensures
        radix() == 0x1_0000_0000,
        0 <= monty_reduce(x, p) < p,
        (monty_reduce(x, p) * 0x1_0000_0000 - x) % p == 0,
        0 <= y < p && (y * 0x1_0000_0000 - x) % p == 0 ==> y == monty_reduce(x, p),
{
    lemma_monty_reduce_unique(x, y, p);
    lemma_mod_equivalence(monty_reduce(x, p) * 0x1_0000_0000, x, p);
    lemma_mod_equivalence(y * 0x1_0000_0000, x, p);
    if 0 <= y < p {
        lemma_small_mod(y as nat, p as nat);
    }
}

/// The s-boxes raise to the power of the degree and multiply by a factor, modulo the prime.
pub proof fn law_sbox(field: FieldModel, x: int)
    requires
        field.prime > 0,
    ensures
        0 <= field.sbox(x) < field.prime,
        (field.sbox(x) - field.factor * pow(x, field.degree)) % field.prime == 0,
        0 <= field.internal_sbox(x) < field.prime,
        (field.internal_sbox(x) - field.internal_factor * pow(x, field.degree)) % field.prime == 0,
{
    let p = field.prime;
    let a = field.factor * pow(x, field.degree);
    let b = field.internal_factor * pow(x, field.degree);
    lemma_mod_bound(a, p);
    lemma_mod_bound(b, p);
    lemma_mod_twice(a, p);
    lemma_mod_twice(b, p);
    lemma_mod_equivalence(a % p, a, p);
    lemma_mod_equivalence(b % p, b, p);
}

/// Which fields the rounds take: those of a prime above 7, with a degree that has no divisor in
/// common with the prime less one, and factors that are not zero.
pub proof fn law_is_field(field: FieldModel, a: int, b: int)
    ensures
        is_prime(a) <==> a > 1 && forall|d: int| 1 < d < a ==> #[trigger] (a % d) != 0,
        coprime(a, b) <==> forall|d: int| d > 1 ==> #[trigger] (a % d) != 0 || b % d != 0,
        field.is_field() <==> is_prime(field.prime) && field.prime > 7 && coprime(
            field.degree as int,
            field.prime - 1,
        ) && field.factor % field.prime != 0 && field.internal_factor % field.prime != 0,
{
}

/// The s-box of an internal round is the scalar one in height 1, the double one in heights 2 and
/// 3, and the quad one in height 4.
pub proof fn law_internal_sboxed<P2AVX2: Poseidon2AVX2Helpers>(s0: U64x4, rc: u32)
    ensures
        internal_sboxed::<P2AVX2>(1, s0, rc) == P2AVX2::scalar_sboxed(s0, rc),
        internal_sboxed::<P2AVX2>(2, s0, rc) == P2AVX2::double_sboxed(s0, rc),
        internal_sboxed::<P2AVX2>(3, s0, rc) == P2AVX2::double_sboxed(s0, rc),
        internal_sboxed::<P2AVX2>(4, s0, rc) == P2AVX2::quad_sboxed(s0, rc),
{
}

/// What an internal round hands to the s-boxes, and what they make of it.
pub proof fn law_internal_sbox_lanes(
    field: FieldModel,
    height: usize,
    s0: U64x4,
    rc: u32,
    out: U64x4,
)
    requires
        field.prime > 0,
    ensures
        internal_sbox_input(field, height, s0, rc) <==> rc < field.prime && forall|c: int|
            0 <= c < 4 ==> (#[trigger] s0[c]) < 0x1_0000_0000 && (!is_lead(height, c) ==> s0[c]
                == 0),
        internal_sbox_output(field, height, s0, rc, out) <==> forall|c: int|
            0 <= c < 4 ==> (#[trigger] out[c]) < 0x1_0000_0000 && (if is_lead(height, c) {
                (out[c] - field.internal_factor * pow(s0[c] + rc, field.degree)) % field.prime == 0
            } else {
                out[c] as int % field.prime == 0
            }),
{
    let p = field.prime;
    lemma_small_mod(0, p as nat);
    assert forall|c: int| 0 <= c < 4 && is_lead(height, c) implies (congruent(
        #[trigger] out[c] as int,
        field.internal_sbox(s0[c] + rc),
        p,
    ) <==> (out[c] - field.internal_factor * pow(s0[c] + rc, field.degree)) % p == 0) by {
        let v = field.internal_factor * pow(s0[c] + rc, field.degree);
        lemma_mod_twice(v, p);
        lemma_mod_equivalence(out[c] as int, v, p);
    }
}

/// Data are canonical instances if there are as many as a tensor holds, of its width, and all
/// elements lie in `[0, prime)`.
pub proof fn law_canonical_instances(height: usize, prime: int, data: Seq<Seq<int>>)
    ensures
        canonical_instances(height, prime, data) <==> data.len() == instances(height) && (forall|
            k: int,
        |
            0 <= k < data.len() ==> (#[trigger] data[k]).len() == width(height)) && (forall|
            k: int,
            i: int,
        |
            0 <= k < data.len() && 0 <= i < width(height) ==> 0 <= #[trigger] data[k][i] < prime),
{
}

/// Round constants are canonical if every lane is below the prime. The constants of an instance are
/// those of its elements in every round.
pub proof fn law_round_constants<const HEIGHT: usize>(
    constants: Seq<Packed64bitM31Tensor<HEIGHT>>,
    prime: int,
    j: int,
    k: int,
)
    ensures
        all_canonical(constants, prime) <==> forall|n: int|
            0 <= n < constants.len() ==> (#[trigger] constants[n]).all_below(prime),
        instance_constants(constants, k).len() == constants.len(),
        0 <= j < constants.len() ==> instance_constants(constants, k)[j] == constants[j]@[k],
        views(constants).len() == constants.len(),
        0 <= j < constants.len() ==> views(constants)[j] == constants[j]@,
{
}

/// A state fits an external round if its linear layer with the constants is below `2^32` times the
/// prime, and its linear layer fits into lanes if it is below `2^64`.
pub proof fn law_fits<const HEIGHT: usize>(
    field: FieldModel,
    constants: Seq<int>,
    x: Seq<int>,
    state: Packed64bitM31Tensor<HEIGHT>,
    k: int,
)
    ensures
        external_input_fits(field, constants, x) <==> forall|i: int|
            0 <= i < x.len() ==> #[trigger] external_layer(x)[i] + constants[i] < 0x1_0000_0000
                * field.prime,
        layer_fits(state, k) <==> forall|i: int|
            0 <= i < width(HEIGHT) ==> #[trigger] external_layer(state@[k])[i]
                < 0x1_0000_0000_0000_0000,
{
}

} // verus!
