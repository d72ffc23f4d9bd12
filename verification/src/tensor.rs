//! The packed state: every lane holds one field element.
use crate::lanes::{add_lanes, hsum, lemma_wrap_add, shl_lanes, swap_pairs, transpose, wrap, U64x4};
use crate::layout::{
    block_of, element_at, instance_at, instance_sum, instances, lane_of, lemma_element_of_place,
    lemma_place_of_element, partner, row_of, supported, width,
};
use crate::model::{add_column_sums, aes_mix, column_sum, sum_first};
use vstd::arithmetic::power2::pow2;
use vstd::prelude::*;

verus! {

/// A 4x4xN matrix of field elements of 31 bits, each in a lane of 64 bits, each row four lanes.
/// The layouts are those of heights 1, 2, 3 and 4.
#[derive(Clone, Copy, Debug)]
pub struct Packed64bitM31Tensor<const HEIGHT: usize>(pub [[U64x4; 4]; HEIGHT]);

/// Row `r` and lane `c` exist.
pub open spec fn in_block(r: int, c: int) -> bool {
    0 <= r < 4 && 0 <= c < 4
}

impl<const HEIGHT: usize> View for Packed64bitM31Tensor<HEIGHT> {
    type V = Seq<Seq<int>>;

    /// The instances, each as the sequence of its elements.
    open spec fn view(&self) -> Seq<Seq<int>> {
        Seq::new(
            instances(HEIGHT),
            |k: int|
                Seq::new(
                    width(HEIGHT),
                    |i: int|
                        self.at(block_of(HEIGHT, i), row_of(i), lane_of(HEIGHT, k, i)) as int,
                ),
        )
    }
}

/// The product of the matrix of [`aes_mix`] with a block, in row `r` and lane `c`.
pub open spec fn aes_at(m: [U64x4; 4], r: int, c: int) -> int {
    2 * m[r][c] + 3 * m[(r + 1) % 4][c] + m[(r + 2) % 4][c] + m[(r + 3) % 4][c]
}

/// The additions of [`aes_block`], on one lane.
proof fn lemma_aes_wraps(a: int, b: int, c: int, d: int)
    ensures
        ({
            let t01 = wrap(a + b);
            let t23 = wrap(c + d);
            let t0123 = wrap(t01 + t23);
            let t01123 = wrap(t0123 + b);
            let t01233 = wrap(t0123 + d);
            &&& wrap(t01 + t01123) == wrap(2 * a + 3 * b + c + d)
            &&& wrap(wrap(c + c) + t01123) == wrap(2 * b + 3 * c + d + a)
            &&& wrap(t23 + t01233) == wrap(2 * c + 3 * d + a + b)
            &&& wrap(wrap(a + a) + t01233) == wrap(2 * d + 3 * a + b + c)
        }),
{
    lemma_wrap_add(a + b, c + d);
    lemma_wrap_add(a + b + c + d, b);
    lemma_wrap_add(a + b + c + d, d);
    lemma_wrap_add(a + b, a + b + c + d + b);
    lemma_wrap_add(c + c, a + b + c + d + b);
    lemma_wrap_add(c + d, a + b + c + d + d);
    lemma_wrap_add(a + a, a + b + c + d + d);
}

/// Multiplies one block by the matrix of [`aes_mix`] from the left.
fn aes_block(m: [U64x4; 4]) -> (out: [U64x4; 4])
    ensures
        forall|r: int, c: int| in_block(r, c) ==> #[trigger] out[r][c] == wrap(aes_at(m, r, c)),
{
    let t01: U64x4 = add_lanes(m[0], m[1]);
    let t23: U64x4 = add_lanes(m[2], m[3]);
    let t0123: U64x4 = add_lanes(t01, t23);
    let t01123: U64x4 = add_lanes(t0123, m[1]);
    let t01233: U64x4 = add_lanes(t0123, m[3]);

    let t00: U64x4 = add_lanes(m[0], m[0]);
    let t22: U64x4 = add_lanes(m[2], m[2]);

    let out: [U64x4; 4] = [
        add_lanes(t01, t01123),
        add_lanes(t22, t01123),
        add_lanes(t23, t01233),
        add_lanes(t00, t01233),
    ];
    assert forall|r: int, c: int| in_block(r, c) implies #[trigger] out[r][c] == wrap(
        aes_at(m, r, c),
    ) by {
        lemma_aes_wraps(m[0][c] as int, m[1][c] as int, m[2][c] as int, m[3][c] as int);
        assert(t01[c] == wrap(m[0][c] + m[1][c]));
        assert(t23[c] == wrap(m[2][c] + m[3][c]));
        assert(t0123[c] == wrap(t01[c] + t23[c]));
        assert(t01123[c] == wrap(t0123[c] + m[1][c]));
        assert(t01233[c] == wrap(t0123[c] + m[3][c]));
        assert(t00[c] == wrap(m[0][c] + m[0][c]));
        assert(t22[c] == wrap(m[2][c] + m[2][c]));
        if r == 0 {
            assert(out[0][c] == wrap(t01[c] + t01123[c]));
        } else if r == 1 {
            assert(out[1][c] == wrap(t22[c] + t01123[c]));
        } else if r == 2 {
            assert(out[2][c] == wrap(t23[c] + t01233[c]));
        } else {
            assert(out[3][c] == wrap(t00[c] + t01233[c]));
        }
    }
    out
}

/// Counted in rows of four lanes, where the elements of block `h` and lane `c` stand before they
/// are shuffled.
spec fn source_row(height: usize, h: int, c: int) -> int {
    if height == 1 {
        c
    } else if height == 2 {
        4 * (c / 2) + 2 * h + c % 2
    } else if height == 3 {
        6 * (c / 2) + 2 * h + c % 2
    } else {
        4 * c + h
    }
}

impl<const HEIGHT: usize> Packed64bitM31Tensor<HEIGHT> {
    /// The element in block `h`, row `r` and lane `c`.
    pub open spec fn at(self, h: int, r: int, c: int) -> u64 {
        self.0[h][r][c]
    }

    /// The lanes in the order in which they stand in memory.
    pub open spec fn flat(self) -> Seq<u64> {
        Seq::new((16 * HEIGHT) as nat, |n: int| self.at(n / 16, (n / 4) % 4, n % 4))
    }

    /// Every element is below `bound`.
    pub open spec fn all_below(self, bound: int) -> bool {
        forall|h: int, r: int, c: int|
            0 <= h < HEIGHT && in_block(r, c) ==> #[trigger] self.at(h, r, c) < bound
    }

    /// What is below one bound is below a greater one.
    pub proof fn lemma_below_greater(self, bound: int, greater: int)
        requires
            self.all_below(bound),
            bound <= greater,
        ensures
            self.all_below(greater),
    {
        assert forall|h: int, r: int, c: int|
            0 <= h < HEIGHT && in_block(r, c) implies #[trigger] self.at(h, r, c) < greater by {
            assert(self.at(h, r, c) < bound);
        }
    }

    /// Element `i` of instance `k`, by its place.
    pub proof fn lemma_view_at(self, k: int, i: int)
        requires
            supported(HEIGHT),
            0 <= k < instances(HEIGHT),
            0 <= i < width(HEIGHT),
        ensures
            0 <= block_of(HEIGHT, i) < HEIGHT,
            in_block(row_of(i), lane_of(HEIGHT, k, i)),
            self@[k][i] == self.at(block_of(HEIGHT, i), row_of(i), lane_of(HEIGHT, k, i)),
    {
        lemma_place_of_element(HEIGHT, k, i);
    }

    /// A bound on the elements of the instances is a bound on the lanes.
    pub proof fn lemma_all_below(self, bound: int)
        requires
            supported(HEIGHT),
        ensures
            self.all_below(bound) <==> forall|k: int, i: int|
                0 <= k < instances(HEIGHT) && 0 <= i < width(HEIGHT) ==> #[trigger] self@[k][i]
                    < bound,
    {
        if self.all_below(bound) {
            assert forall|k: int, i: int|
                0 <= k < instances(HEIGHT) && 0 <= i < width(
                    HEIGHT,
                ) implies #[trigger] self@[k][i] < bound by {
                self.lemma_view_at(k, i);
            }
        }
        if forall|k: int, i: int|
            0 <= k < instances(HEIGHT) && 0 <= i < width(HEIGHT) ==> #[trigger] self@[k][i]
                < bound {
            assert forall|h: int, r: int, c: int|
                0 <= h < HEIGHT && in_block(r, c) implies #[trigger] self.at(h, r, c) < bound by {
                lemma_element_of_place(HEIGHT, h, r, c);
                let k = instance_at(HEIGHT, c);
                let i = element_at(HEIGHT, h, r, c);
                self.lemma_view_at(k, i);
                assert(self@[k][i] < bound);
            }
        }
    }

    /// The matrix of [`aes_mix`] acts on an instance as it acts on the columns of the blocks.
    pub proof fn lemma_aes_view(self, k: int, i: int)
        requires
            supported(HEIGHT),
            0 <= k < instances(HEIGHT),
            0 <= i < width(HEIGHT),
        ensures
            aes_mix(self@[k])[i] == aes_at(
                self.0[block_of(HEIGHT, i)],
                row_of(i),
                lane_of(HEIGHT, k, i),
            ),
    {
        let b = 4 * (i / 4);
        self.lemma_view_at(k, i);
        self.lemma_view_at(k, b + (i + 1) % 4);
        self.lemma_view_at(k, b + (i + 2) % 4);
        self.lemma_view_at(k, b + (i + 3) % 4);
    }

    /// Left multiply by the matrix of [`aes_mix`].
    pub fn mat_mul_aes(&mut self)
        ensures
            forall|h: int, r: int, c: int|
                0 <= h < HEIGHT && in_block(r, c) ==> #[trigger] final(self).at(h, r, c) == wrap(
                    aes_at(old(self).0[h], r, c),
                ),
    {
        let mut h: usize = 0;
        while h < HEIGHT
            invariant
                h <= HEIGHT,
                forall|g: int, r: int, c: int|
                    0 <= g < h && in_block(r, c) ==> #[trigger] self.0[g][r][c] == wrap(
                        aes_at(old(self).0[g], r, c),
                    ),
                forall|g: int| h <= g < HEIGHT ==> #[trigger] self.0[g] == old(self).0[g],
            decreases HEIGHT - h,
        {
            self.0[h] = aes_block(self.0[h]);
            h += 1;
        }
    }

    /// The lanes read in memory order as one instance after the other.
    pub open spec fn consecutive(self) -> Seq<Seq<int>> {
        Seq::new(
            instances(HEIGHT),
            |k: int|
                Seq::new(
                    width(HEIGHT),
                    |i: int| self.flat()[width(HEIGHT) * k + i] as int,
                ),
        )
    }

    /// `shuffled` holds each row of four lanes as the column that the layout has for it.
    spec fn shuffles_to(self, shuffled: Self) -> bool {
        forall|h: int, r: int, c: int|
            0 <= h < HEIGHT && in_block(r, c) ==> #[trigger] shuffled.at(h, r, c) == self.at(
                source_row(HEIGHT, h, c) / 4,
                source_row(HEIGHT, h, c) % 4,
                r,
            )
    }

    proof fn lemma_shuffled_view(self, shuffled: Self)
        requires
            supported(HEIGHT),
            self.shuffles_to(shuffled),
        ensures
            shuffled@ == self.consecutive(),
    {
        assert forall|k: int, i: int|
            0 <= k < instances(HEIGHT) && 0 <= i < width(
                HEIGHT,
            ) implies #[trigger] shuffled@[k][i] == self.consecutive()[k][i] by {
            lemma_place_of_element(HEIGHT, k, i);
            let h = block_of(HEIGHT, i);
            let c = lane_of(HEIGHT, k, i);
            let n = width(HEIGHT) * k + i;
            assert(n == 16 * k + i || (HEIGHT == 3 && n == 24 * k + i));
            assert(0 <= n < 16 * HEIGHT);
            assert(n == 4 * source_row(HEIGHT, h, c) + i % 4);
            assert(n / 4 == source_row(HEIGHT, h, c));
            assert(n / 16 == source_row(HEIGHT, h, c) / 4);
            assert(n % 4 == i % 4);
        }
        assert forall|k: int| 0 <= k < instances(HEIGHT) implies #[trigger] shuffled@[k]
            == self.consecutive()[k] by {
            assert(shuffled@[k] =~= self.consecutive()[k]);
        }
        assert(shuffled@ =~= self.consecutive());
    }

    /// Brings data that stand in memory as one instance after the other into the layout of the
    /// tensor.
    pub fn shuffle_data(&mut self)
        requires
            supported(HEIGHT),
        ensures
            final(self)@ == old(self).consecutive(),
    {
        if HEIGHT == 1 {
            self.0[0] = transpose(self.0[0]);
        } else if HEIGHT == 2 {
            let mat0: [U64x4; 4] = transpose(
                [self.0[0][0], self.0[0][1], self.0[1][0], self.0[1][1]],
            );
            let mat1: [U64x4; 4] = transpose(
                [self.0[0][2], self.0[0][3], self.0[1][2], self.0[1][3]],
            );
            self.0[0] = mat0;
            self.0[1] = mat1;
        } else if HEIGHT == 3 {
            let mat0: [U64x4; 4] = transpose(
                [self.0[0][0], self.0[0][1], self.0[1][2], self.0[1][3]],
            );
            let mat1: [U64x4; 4] = transpose(
                [self.0[0][2], self.0[0][3], self.0[2][0], self.0[2][1]],
            );
            let mat2: [U64x4; 4] = transpose(
                [self.0[1][0], self.0[1][1], self.0[2][2], self.0[2][3]],
            );
            self.0[0] = mat0;
            self.0[1] = mat1;
            self.0[2] = mat2;
        } else {
            let mat0: [U64x4; 4] = transpose(
                [self.0[0][0], self.0[1][0], self.0[2][0], self.0[3][0]],
            );
            let mat1: [U64x4; 4] = transpose(
                [self.0[0][1], self.0[1][1], self.0[2][1], self.0[3][1]],
            );
            let mat2: [U64x4; 4] = transpose(
                [self.0[0][2], self.0[1][2], self.0[2][2], self.0[3][2]],
            );
            let mat3: [U64x4; 4] = transpose(
                [self.0[0][3], self.0[1][3], self.0[2][3], self.0[3][3]],
            );
            self.0[0] = mat0;
            self.0[1] = mat1;
            self.0[2] = mat2;
            self.0[3] = mat3;
        }
        proof {
            old(self).lemma_shuffled_view(*self);
        }
    }

    /// The inverse of [`Self::shuffle_data`].
    pub fn shuffle_data_inverse(&mut self)
        requires
            supported(HEIGHT),
        ensures
            final(self).consecutive() == old(self)@,
    {
        if HEIGHT == 1 {
            self.0[0] = transpose(self.0[0]);
        } else if HEIGHT == 2 {
            let mat0: [U64x4; 4] = transpose(self.0[0]);
            let mat1: [U64x4; 4] = transpose(self.0[1]);
            self.0[0] = [mat0[0], mat0[1], mat1[0], mat1[1]];
            self.0[1] = [mat0[2], mat0[3], mat1[2], mat1[3]];
        } else if HEIGHT == 3 {
            let mat0: [U64x4; 4] = transpose(self.0[0]);
            let mat1: [U64x4; 4] = transpose(self.0[1]);
            let mat2: [U64x4; 4] = transpose(self.0[2]);
            self.0[0] = [mat0[0], mat0[1], mat1[0], mat1[1]];
            self.0[1] = [mat2[0], mat2[1], mat0[2], mat0[3]];
            self.0[2] = [mat1[2], mat1[3], mat2[2], mat2[3]];
        } else {
            let mat0: [U64x4; 4] = transpose(self.0[0]);
            let mat1: [U64x4; 4] = transpose(self.0[1]);
            let mat2: [U64x4; 4] = transpose(self.0[2]);
            let mat3: [U64x4; 4] = transpose(self.0[3]);
            self.0[0] = [mat0[0], mat1[0], mat2[0], mat3[0]];
            self.0[1] = [mat0[1], mat1[1], mat2[1], mat3[1]];
            self.0[2] = [mat0[2], mat1[2], mat2[2], mat3[2]];
            self.0[3] = [mat0[3], mat1[3], mat2[3], mat3[3]];
        }
        proof {
            self.lemma_shuffled_view(*old(self));
        }
    }

    /// Adds two tensors element by element, modulo `2^64`.
    pub fn add(&mut self, rhs: Self)
        ensures
            forall|h: int, r: int, c: int|
                0 <= h < HEIGHT && in_block(r, c) ==> #[trigger] final(self).at(h, r, c) == wrap(
                    old(self).at(h, r, c) + rhs.at(h, r, c),
                ),
    {
        let mut h: usize = 0;
        while h < HEIGHT
            invariant
                h <= HEIGHT,
                forall|g: int, r: int, c: int|
                    0 <= g < h && in_block(r, c) ==> #[trigger] self.0[g][r][c] == wrap(
                        old(self).at(g, r, c) + rhs.at(g, r, c),
                    ),
                forall|g: int| h <= g < HEIGHT ==> #[trigger] self.0[g] == old(self).0[g],
            decreases HEIGHT - h,
        {
            self.0[h] = [
                add_lanes(self.0[h][0], rhs.0[h][0]),
                add_lanes(self.0[h][1], rhs.0[h][1]),
                add_lanes(self.0[h][2], rhs.0[h][2]),
                add_lanes(self.0[h][3], rhs.0[h][3]),
            ];
            h += 1;
        }
    }

    /// Shifts each element to the left by the element of `shifts`, modulo `2^64`.
    pub fn left_shift(&mut self, shifts: Packed64bitM31Tensor<HEIGHT>)
        ensures
            forall|h: int, r: int, c: int|
                0 <= h < HEIGHT && in_block(r, c) ==> #[trigger] final(self).at(h, r, c) == wrap(
                    old(self).at(h, r, c) * pow2(shifts.at(h, r, c) as nat),
                ),
    {
        let mut h: usize = 0;
        while h < HEIGHT
            invariant
                h <= HEIGHT,
                forall|g: int, r: int, c: int|
                    0 <= g < h && in_block(r, c) ==> #[trigger] self.0[g][r][c] == wrap(
                        old(self).at(g, r, c) * pow2(shifts.at(g, r, c) as nat),
                    ),
                forall|g: int| h <= g < HEIGHT ==> #[trigger] self.0[g] == old(self).0[g],
            decreases HEIGHT - h,
        {
            self.0[h] = [
                shl_lanes(self.0[h][0], shifts.0[h][0]),
                shl_lanes(self.0[h][1], shifts.0[h][1]),
                shl_lanes(self.0[h][2], shifts.0[h][2]),
                shl_lanes(self.0[h][3], shifts.0[h][3]),
            ];
            h += 1;
        }
    }

    /// The sum of lane `c` over the rows of the first `n` blocks.
    pub open spec fn lane_sum(self, c: int, n: nat) -> int
        decreases n,
    {
        if n == 0 {
            0
        } else {
            let h = n - 1;
            self.lane_sum(c, h as nat) + self.at(h, 0, c) + self.at(h, 1, c) + self.at(h, 2, c)
                + self.at(h, 3, c)
        }
    }

    /// The sum of all the rows, modulo `2^64`.
    pub fn vec_sum(&self) -> (output: U64x4)
        ensures
            forall|c: int|
                0 <= c < 4 ==> #[trigger] output[c] == wrap(self.lane_sum(c, HEIGHT as nat)),
    {
        let mut output: U64x4 = [0, 0, 0, 0];
        let mut h: usize = 0;
        while h < HEIGHT
            invariant
                h <= HEIGHT,
                forall|c: int|
                    0 <= c < 4 ==> #[trigger] output[c] == wrap(self.lane_sum(c, h as nat)),
            decreases HEIGHT - h,
        {
            let ghost before = output;
            let mat: [U64x4; 4] = self.0[h];
            let t01: U64x4 = add_lanes(mat[0], mat[1]);
            let t23: U64x4 = add_lanes(mat[2], mat[3]);
            let t0123: U64x4 = add_lanes(t01, t23);
            output = add_lanes(t0123, output);
            assert forall|c: int| 0 <= c < 4 implies #[trigger] output[c] == wrap(
                self.lane_sum(c, (h + 1) as nat),
            ) by {
                let a = mat[0][c] + mat[1][c];
                let b = mat[2][c] + mat[3][c];
                assert(t01[c] == wrap(a));
                assert(t23[c] == wrap(b));
                assert(t0123[c] == wrap(t01[c] + t23[c]));
                assert(output[c] == wrap(t0123[c] + before[c]));
                assert(before[c] == wrap(self.lane_sum(c, h as nat)));
                lemma_wrap_add(a, b);
                lemma_wrap_add(a + b, self.lane_sum(c, h as nat));
            }
            h += 1;
        }
        output
    }

    /// Adds to each element the sum of the elements of its instance that stand in its row: the
    /// map of [`add_column_sums`] on every instance, modulo `2^64`.
    pub fn right_mat_mul_i_plus_1(&mut self)
        requires
            supported(HEIGHT),
            HEIGHT == 1 ==> forall|r: int|
                0 <= r < 4 ==> #[trigger] row_total(old(self).0[0][r]) <= u64::MAX,
        ensures
            forall|k: int, i: int|
                0 <= k < instances(HEIGHT) && 0 <= i < width(HEIGHT)
                    ==> #[trigger] final(self)@[k][i] == wrap(add_column_sums(old(self)@[k])[i]),
    {
        if HEIGHT == 1 {
            let mut mat: [U64x4; 4] = self.0[0];
            right_mat_mul_i_plus_1_dim_1(&mut mat);
            self.0[0] = mat;
        } else if HEIGHT == 2 {
            right_mat_mul_i_plus_1_dim_2(self);
        } else if HEIGHT == 3 {
            right_mat_mul_i_plus_1_dim_3(self);
        } else {
            right_mat_mul_i_plus_1_dim_4(self);
        }
        assert forall|h: int, r: int, c: int|
            0 <= h < HEIGHT && in_block(r, c) implies #[trigger] self.at(h, r, c) == wrap(
            old(self).plus_row_sum(h, r, c),
        ) by {
            if HEIGHT == 1 {
                old(self).lemma_row_sum(r, c);
                assert(self.0[0][r][c] == wrap(
                    old(self).0[0][r][c] + row_total(old(self).0[0][r]),
                ));
            }
        }
        assert forall|k: int, i: int|
            0 <= k < instances(HEIGHT) && 0 <= i < width(
                HEIGHT,
            ) implies #[trigger] self@[k][i] == wrap(add_column_sums(old(self)@[k])[i]) by {
            lemma_place_of_element(HEIGHT, k, i);
            old(self).lemma_column_sum(k, i);
            let h = block_of(HEIGHT, i);
            let c = lane_of(HEIGHT, k, i);
            assert(self@[k][i] == self.at(h, i % 4, c));
            assert(old(self)@[k][i] == old(self).at(h, i % 4, c));
        }
    }

    /// The sum of row `r` over the elements of the instance that lane `c` belongs to.
    pub open spec fn row_sum(self, r: int, c: int) -> int {
        instance_sum(HEIGHT, self.block_sum(r), c)
    }

    /// An element and the sum of the row that it stands in.
    pub open spec fn plus_row_sum(self, h: int, r: int, c: int) -> int {
        self.at(h, r, c) + self.row_sum(r, c)
    }

    /// The lanes of row `r`, summed over the blocks.
    pub open spec fn block_sum(self, r: int) -> Seq<int> {
        Seq::new(4, |c: int| self.lane_row_sum(r, c, HEIGHT as nat))
    }

    /// The sum of lane `c` of row `r` over the first `n` blocks.
    pub open spec fn lane_row_sum(self, r: int, c: int, n: nat) -> int
        decreases n,
    {
        if n == 0 {
            0
        } else {
            self.lane_row_sum(r, c, (n - 1) as nat) + self.at(n - 1, r, c)
        }
    }

    /// The sums of [`Self::row_sum`], written out.
    pub proof fn lemma_row_sum(self, r: int, c: int)
        requires
            supported(HEIGHT),
            in_block(r, c),
        ensures
            ({
                let d = partner(c);
                &&& HEIGHT == 1 ==> self.row_sum(r, c) == row_total(self.0[0][r])
                &&& HEIGHT == 2 ==> self.row_sum(r, c) == self.at(0, r, c) + self.at(1, r, c) + (
                self.at(0, r, d) + self.at(1, r, d))
                &&& HEIGHT == 3 ==> self.row_sum(r, c) == self.at(0, r, c) + self.at(1, r, c)
                    + self.at(2, r, c) + (self.at(0, r, d) + self.at(1, r, d) + self.at(2, r, d))
                &&& HEIGHT == 4 ==> self.row_sum(r, c) == self.at(0, r, c) + self.at(1, r, c) + (
                self.at(2, r, c) + self.at(3, r, c))
            }),
    {
        reveal_with_fuel(Packed64bitM31Tensor::lane_row_sum, 5);
    }

    /// A column sum of an instance is the sum of a row of the tensor.
    pub proof fn lemma_column_sum(self, k: int, i: int)
        requires
            supported(HEIGHT),
            0 <= k < instances(HEIGHT),
            0 <= i < width(HEIGHT),
        ensures
            column_sum(self@[k], i % 4, width(HEIGHT) / 4) == self.row_sum(
                i % 4,
                lane_of(HEIGHT, k, i),
            ),
    {
        reveal_with_fuel(column_sum, 7);
        reveal_with_fuel(Packed64bitM31Tensor::lane_row_sum, 5);
        let c = lane_of(HEIGHT, k, i);
        lemma_place_of_element(HEIGHT, k, i);
        let x = self@[k];
        let r = i % 4;
        if HEIGHT == 1 {
            assert(x[r] == self.at(0, r, 0));
            assert(x[4 + r] == self.at(0, r, 1));
            assert(x[8 + r] == self.at(0, r, 2));
            assert(x[12 + r] == self.at(0, r, 3));
        } else if HEIGHT == 4 {
            assert(x[r] == self.at(0, r, k));
            assert(x[4 + r] == self.at(1, r, k));
            assert(x[8 + r] == self.at(2, r, k));
            assert(x[12 + r] == self.at(3, r, k));
        } else {
            assert(x[r] == self.at(0, r, 2 * k));
            assert(x[4 + r] == self.at(0, r, 2 * k + 1));
            assert(x[8 + r] == self.at(1, r, 2 * k));
            assert(x[12 + r] == self.at(1, r, 2 * k + 1));
            if HEIGHT == 3 {
                assert(x[16 + r] == self.at(2, r, 2 * k));
                assert(x[20 + r] == self.at(2, r, 2 * k + 1));
            }
        }
    }
}

impl<const HEIGHT: usize> Packed64bitM31Tensor<HEIGHT> {
    /// The lanes, each summed over all rows.
    pub open spec fn lane_sums(self) -> Seq<int> {
        Seq::new(4, |c: int| self.lane_sum(c, HEIGHT as nat))
    }

    /// The lanes of an instance sum up to the sum of its elements.
    pub proof fn lemma_instance_total(self, k: int, c: int)
        requires
            supported(HEIGHT),
            0 <= k < instances(HEIGHT),
            0 <= c < 4,
            instance_at(HEIGHT, c) == k,
        ensures
            instance_sum(HEIGHT, self.lane_sums(), c) == sum_first(self@[k], width(HEIGHT)),
    {
        let x = self@[k];
        if HEIGHT == 1 {
            self.lemma_four(k, 0, 0, 0);
            self.lemma_four(k, 1, 0, 1);
            self.lemma_four(k, 2, 0, 2);
            self.lemma_four(k, 3, 0, 3);
        } else if HEIGHT == 4 {
            self.lemma_four(k, 0, 0, k);
            self.lemma_four(k, 1, 1, k);
            self.lemma_four(k, 2, 2, k);
            self.lemma_four(k, 3, 3, k);
        } else {
            self.lemma_four(k, 0, 0, 2 * k);
            self.lemma_four(k, 1, 0, 2 * k + 1);
            self.lemma_four(k, 2, 1, 2 * k);
            self.lemma_four(k, 3, 1, 2 * k + 1);
            if HEIGHT == 3 {
                self.lemma_four(k, 4, 2, 2 * k);
                self.lemma_four(k, 5, 2, 2 * k + 1);
            }
        }
        reveal_with_fuel(Packed64bitM31Tensor::lane_sum, 5);
    }

    /// Four elements that stand together in an instance fill one lane of one block.
    proof fn lemma_four(self, k: int, g: nat, h: int, c: int)
        requires
            supported(HEIGHT),
            0 <= k < instances(HEIGHT),
            4 * g < width(HEIGHT),
            h == block_of(HEIGHT, 4 * g as int),
            c == lane_of(HEIGHT, k, 4 * g as int),
        ensures
            sum_first(self@[k], 4 * g + 4) == sum_first(self@[k], 4 * g) + self.at(h, 0, c)
                + self.at(h, 1, c) + self.at(h, 2, c) + self.at(h, 3, c),
            sum_first(self@[k], 0) == 0,
    {
        reveal_with_fuel(sum_first, 5);
        self.lemma_view_at(k, 4 * (g as int));
        self.lemma_view_at(k, 4 * (g as int) + 1);
        self.lemma_view_at(k, 4 * (g as int) + 2);
        self.lemma_view_at(k, 4 * (g as int) + 3);
    }

    /// If the elements of the first `n` blocks are at most `bound`, then a lane of them sums up
    /// to at most `4 * n * bound`.
    pub proof fn lemma_lane_sum_bounds(self, c: int, n: nat, bound: int)
        requires
            self.all_below(bound + 1),
            0 <= c < 4,
            n <= HEIGHT,
        ensures
            0 <= self.lane_sum(c, n) <= 4 * n * bound,
        decreases n,
    {
        if n > 0 {
            self.lemma_lane_sum_bounds(c, (n - 1) as nat, bound);
            assert(self.at(n - 1, 0, c) < bound + 1);
            assert(self.at(n - 1, 1, c) < bound + 1);
            assert(self.at(n - 1, 2, c) < bound + 1);
            assert(self.at(n - 1, 3, c) < bound + 1);
            assert(4 * (n - 1) * bound + 4 * bound == 4 * n * bound) by (nonlinear_arith);
        } else {
            assert(4 * n * bound == 0) by (nonlinear_arith)
                requires
                    n == 0,
            ;
        }
    }
}

/// The sum of the four lanes of a row.
pub open spec fn row_total(row: U64x4) -> int {
    row[0] + row[1] + row[2] + row[3]
}

/// [`Packed64bitM31Tensor::right_mat_mul_i_plus_1`] on the one block of height 1.
pub fn right_mat_mul_i_plus_1_dim_1(mat: &mut [U64x4; 4])
    requires
        forall|r: int| 0 <= r < 4 ==> #[trigger] row_total(old(mat)[r]) <= u64::MAX,
    ensures
        forall|r: int, c: int|
            in_block(r, c) ==> #[trigger] final(mat)[r][c] == wrap(
                old(mat)[r][c] + row_total(old(mat)[r]),
            ),
{
    proof {
        assert(row_total(mat[0]) <= u64::MAX);
        assert(row_total(mat[1]) <= u64::MAX);
        assert(row_total(mat[2]) <= u64::MAX);
        assert(row_total(mat[3]) <= u64::MAX);
    }
    mat[0] = add_lanes(mat[0], hsum(mat[0]));
    mat[1] = add_lanes(mat[1], hsum(mat[1]));
    mat[2] = add_lanes(mat[2], hsum(mat[2]));
    mat[3] = add_lanes(mat[3], hsum(mat[3]));
}

/// Adding the sum of row `r` to that row of block `h`.
proof fn lemma_plus_row_sum<const HEIGHT: usize>(
    input: Packed64bitM31Tensor<HEIGHT>,
    h: int,
    r: int,
    sum: U64x4,
    row: U64x4,
)
    requires
        forall|c: int| 0 <= c < 4 ==> #[trigger] sum[c] == wrap(input.row_sum(r, c)),
        forall|c: int| 0 <= c < 4 ==> #[trigger] row[c] == wrap(input.0[h][r][c] + sum[c]),
    ensures
        forall|c: int| 0 <= c < 4 ==> #[trigger] row[c] == wrap(input.plus_row_sum(h, r, c)),
{
    assert forall|c: int| 0 <= c < 4 implies #[trigger] row[c] == wrap(
        input.plus_row_sum(h, r, c),
    ) by {
        assert(sum[c] == wrap(input.row_sum(r, c)));
        lemma_wrap_add(input.at(h, r, c) as int, input.row_sum(r, c));
    }
}

/// The sum of one row over the blocks, and over the lanes of each instance, for height 2.
fn row_sum_dim_2(a: U64x4, b: U64x4) -> (sum: U64x4)
    ensures
        forall|i: int|
            0 <= i < 4 ==> #[trigger] sum[i] == wrap(
                a[i] + b[i] + (a[partner(i)] + b[partner(i)]),
            ),
{
    let acc01: U64x4 = add_lanes(a, b);
    let acc01_shuffle: U64x4 = swap_pairs(acc01);
    let sum: U64x4 = add_lanes(acc01, acc01_shuffle);
    assert forall|i: int| 0 <= i < 4 implies #[trigger] sum[i] == wrap(
        a[i] + b[i] + (a[partner(i)] + b[partner(i)]),
    ) by {
        let j = partner(i);
        assert(acc01[i] == wrap(a[i] + b[i]));
        assert(acc01[j] == wrap(a[j] + b[j]));
        lemma_wrap_add(a[i] + b[i], a[j] + b[j]);
    }
    sum
}

/// [`Packed64bitM31Tensor::right_mat_mul_i_plus_1`] for height 2.
pub fn right_mat_mul_i_plus_1_dim_2<const HEIGHT: usize>(input: &mut Packed64bitM31Tensor<HEIGHT>)
    requires
        HEIGHT == 2,
    ensures
        forall|h: int, r: int, c: int|
            0 <= h < 2 && in_block(r, c) ==> #[trigger] final(input).at(h, r, c) == wrap(
                old(input).plus_row_sum(h, r, c),
            ),
{
    let mut m0: [U64x4; 4] = input.0[0];
    let mut m1: [U64x4; 4] = input.0[1];
    let mut i: usize = 0;
    while i < 4
        invariant
            HEIGHT == 2,
            i <= 4,
            forall|r: int, c: int|
                in_block(r, c) && r < i ==> #[trigger] m0[r][c] == wrap(
                    old(input).plus_row_sum(0, r, c),
                ),
            forall|r: int, c: int|
                in_block(r, c) && r < i ==> #[trigger] m1[r][c] == wrap(
                    old(input).plus_row_sum(1, r, c),
                ),
            forall|r: int| i <= r < 4 ==> #[trigger] m0[r] == old(input).0[0][r],
            forall|r: int| i <= r < 4 ==> #[trigger] m1[r] == old(input).0[1][r],
        decreases 4 - i,
    {
        let sum: U64x4 = row_sum_dim_2(m0[i], m1[i]);
        m0[i] = add_lanes(m0[i], sum);
        m1[i] = add_lanes(m1[i], sum);
        proof {
            let row = i as int;
            assert forall|c: int| 0 <= c < 4 implies #[trigger] sum[c] == wrap(
                old(input).row_sum(row, c),
            ) by {
                old(input).lemma_row_sum(row, c);
            }
            lemma_plus_row_sum(*old(input), 0, row, sum, m0[row]);
            lemma_plus_row_sum(*old(input), 1, row, sum, m1[row]);
        }
        i += 1;
    }
    input.0[0] = m0;
    input.0[1] = m1;
}

/// The sum of one row over the blocks, and over the lanes of each instance, for height 3.
fn row_sum_dim_3(a: U64x4, b: U64x4, c: U64x4) -> (sum: U64x4)
    ensures
        forall|i: int|
            0 <= i < 4 ==> #[trigger] sum[i] == wrap(
                a[i] + b[i] + c[i] + (a[partner(i)] + b[partner(i)] + c[partner(i)]),
            ),
{
    let acc01: U64x4 = add_lanes(a, b);
    let acc012: U64x4 = add_lanes(acc01, c);
    let acc012_shuffle: U64x4 = swap_pairs(acc012);
    let sum: U64x4 = add_lanes(acc012, acc012_shuffle);
    assert forall|i: int| 0 <= i < 4 implies #[trigger] sum[i] == wrap(
        a[i] + b[i] + c[i] + (a[partner(i)] + b[partner(i)] + c[partner(i)]),
    ) by {
        let j = partner(i);
        assert(acc01[i] == wrap(a[i] + b[i]));
        assert(acc01[j] == wrap(a[j] + b[j]));
        assert(acc012[i] == wrap(acc01[i] + c[i]));
        assert(acc012[j] == wrap(acc01[j] + c[j]));
        lemma_wrap_add(a[i] + b[i], c[i] as int);
        lemma_wrap_add(a[j] + b[j], c[j] as int);
        lemma_wrap_add(a[i] + b[i] + c[i], a[j] + b[j] + c[j]);
    }
    sum
}

/// [`Packed64bitM31Tensor::right_mat_mul_i_plus_1`] for height 3.
pub fn right_mat_mul_i_plus_1_dim_3<const HEIGHT: usize>(input: &mut Packed64bitM31Tensor<HEIGHT>)
    requires
        HEIGHT == 3,
    ensures
        forall|h: int, r: int, c: int|
            0 <= h < 3 && in_block(r, c) ==> #[trigger] final(input).at(h, r, c) == wrap(
                old(input).plus_row_sum(h, r, c),
            ),
{
    let mut m0: [U64x4; 4] = input.0[0];
    let mut m1: [U64x4; 4] = input.0[1];
    let mut m2: [U64x4; 4] = input.0[2];
    let mut i: usize = 0;
    while i < 4
        invariant
            HEIGHT == 3,
            i <= 4,
            forall|r: int, c: int|
                in_block(r, c) && r < i ==> #[trigger] m0[r][c] == wrap(
                    old(input).plus_row_sum(0, r, c),
                ),
            forall|r: int, c: int|
                in_block(r, c) && r < i ==> #[trigger] m1[r][c] == wrap(
                    old(input).plus_row_sum(1, r, c),
                ),
            forall|r: int, c: int|
                in_block(r, c) && r < i ==> #[trigger] m2[r][c] == wrap(
                    old(input).plus_row_sum(2, r, c),
                ),
            forall|r: int| i <= r < 4 ==> #[trigger] m0[r] == old(input).0[0][r],
            forall|r: int| i <= r < 4 ==> #[trigger] m1[r] == old(input).0[1][r],
            forall|r: int| i <= r < 4 ==> #[trigger] m2[r] == old(input).0[2][r],
        decreases 4 - i,
    {
        let sum: U64x4 = row_sum_dim_3(m0[i], m1[i], m2[i]);
        m0[i] = add_lanes(m0[i], sum);
        m1[i] = add_lanes(m1[i], sum);
        m2[i] = add_lanes(m2[i], sum);
        proof {
            let row = i as int;
            assert forall|c: int| 0 <= c < 4 implies #[trigger] sum[c] == wrap(
                old(input).row_sum(row, c),
            ) by {
                old(input).lemma_row_sum(row, c);
            }
            lemma_plus_row_sum(*old(input), 0, row, sum, m0[row]);
            lemma_plus_row_sum(*old(input), 1, row, sum, m1[row]);
            lemma_plus_row_sum(*old(input), 2, row, sum, m2[row]);
        }
        i += 1;
    }
    input.0[0] = m0;
    input.0[1] = m1;
    input.0[2] = m2;
}

/// The sum of one row over the blocks, and over the lanes of each instance, for height 4.
fn row_sum_dim_4(a: U64x4, b: U64x4, c: U64x4, d: U64x4) -> (sum: U64x4)
    ensures
        forall|i: int|
            0 <= i < 4 ==> #[trigger] sum[i] == wrap(
                a[i] + b[i] + (c[i] + d[i]),
            ),
{
    let acc01: U64x4 = add_lanes(a, b);
    let acc23: U64x4 = add_lanes(c, d);
    let sum: U64x4 = add_lanes(acc01, acc23);
    assert forall|i: int| 0 <= i < 4 implies #[trigger] sum[i] == wrap(
        a[i] + b[i] + (c[i] + d[i]),
    ) by {
        assert(acc01[i] == wrap(a[i] + b[i]));
        assert(acc23[i] == wrap(c[i] + d[i]));
        lemma_wrap_add(a[i] + b[i], c[i] + d[i]);
    }
    sum
}

/// [`Packed64bitM31Tensor::right_mat_mul_i_plus_1`] for height 4.
pub fn right_mat_mul_i_plus_1_dim_4<const HEIGHT: usize>(input: &mut Packed64bitM31Tensor<HEIGHT>)
    requires
        HEIGHT == 4,
    ensures
        forall|h: int, r: int, c: int|
            0 <= h < 4 && in_block(r, c) ==> #[trigger] final(input).at(h, r, c) == wrap(
                old(input).plus_row_sum(h, r, c),
            ),
{
    let mut m0: [U64x4; 4] = input.0[0];
    let mut m1: [U64x4; 4] = input.0[1];
    let mut m2: [U64x4; 4] = input.0[2];
    let mut m3: [U64x4; 4] = input.0[3];
    let mut i: usize = 0;
    while i < 4
        invariant
            HEIGHT == 4,
            i <= 4,
            forall|r: int, c: int|
                in_block(r, c) && r < i ==> #[trigger] m0[r][c] == wrap(
                    old(input).plus_row_sum(0, r, c),
                ),
            forall|r: int, c: int|
                in_block(r, c) && r < i ==> #[trigger] m1[r][c] == wrap(
                    old(input).plus_row_sum(1, r, c),
                ),
            forall|r: int, c: int|
                in_block(r, c) && r < i ==> #[trigger] m2[r][c] == wrap(
                    old(input).plus_row_sum(2, r, c),
                ),
            forall|r: int, c: int|
                in_block(r, c) && r < i ==> #[trigger] m3[r][c] == wrap(
                    old(input).plus_row_sum(3, r, c),
                ),
            forall|r: int| i <= r < 4 ==> #[trigger] m0[r] == old(input).0[0][r],
            forall|r: int| i <= r < 4 ==> #[trigger] m1[r] == old(input).0[1][r],
            forall|r: int| i <= r < 4 ==> #[trigger] m2[r] == old(input).0[2][r],
            forall|r: int| i <= r < 4 ==> #[trigger] m3[r] == old(input).0[3][r],
        decreases 4 - i,
    {
        let sum: U64x4 = row_sum_dim_4(m0[i], m1[i], m2[i], m3[i]);
        m0[i] = add_lanes(m0[i], sum);
        m1[i] = add_lanes(m1[i], sum);
        m2[i] = add_lanes(m2[i], sum);
        m3[i] = add_lanes(m3[i], sum);
        proof {
            let row = i as int;
            assert forall|c: int| 0 <= c < 4 implies #[trigger] sum[c] == wrap(
                old(input).row_sum(row, c),
            ) by {
                old(input).lemma_row_sum(row, c);
            }
            lemma_plus_row_sum(*old(input), 0, row, sum, m0[row]);
            lemma_plus_row_sum(*old(input), 1, row, sum, m1[row]);
            lemma_plus_row_sum(*old(input), 2, row, sum, m2[row]);
            lemma_plus_row_sum(*old(input), 3, row, sum, m3[row]);
        }
        i += 1;
    }
    input.0[0] = m0;
    input.0[1] = m1;
    input.0[2] = m2;
    input.0[3] = m3;
}

} // verus!
