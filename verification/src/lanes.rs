//! Vectors of four 64-bit lanes.
use crate::layout::{instance_sum, is_lead, partner, supported};
use vstd::arithmetic::power2::*;
use vstd::prelude::*;

verus! {

/// Four 64-bit lanes, lane 0 the lowest.
pub type U64x4 = [u64; 4];

/// The value that 64 bits keep of `x`.
pub open spec fn wrap(x: int) -> int {
    x % 0x1_0000_0000_0000_0000
}

/// Dropping high bits before an addition changes nothing after it.
pub proof fn lemma_wrap_add(x: int, y: int)
    ensures
        wrap(wrap(x) + y) == wrap(x + y),
        wrap(x + wrap(y)) == wrap(x + y),
        wrap(wrap(x) + wrap(y)) == wrap(x + y),
{
}

/// Adds lane by lane, modulo `2^64`.
pub fn add_lanes(a: U64x4, b: U64x4) -> (r: U64x4)
    ensures
        forall|i: int| 0 <= i < 4 ==> #[trigger] r[i] == wrap(a[i] + b[i]),
{
    [
        a[0].wrapping_add(b[0]),
        a[1].wrapping_add(b[1]),
        a[2].wrapping_add(b[2]),
        a[3].wrapping_add(b[3]),
    ]
}

/// Subtracts lane by lane, modulo `2^64`.
pub fn sub_lanes(a: U64x4, b: U64x4) -> (r: U64x4)
    ensures
        forall|i: int| 0 <= i < 4 ==> #[trigger] r[i] == wrap(a[i] - b[i]),
{
    [
        a[0].wrapping_sub(b[0]),
        a[1].wrapping_sub(b[1]),
        a[2].wrapping_sub(b[2]),
        a[3].wrapping_sub(b[3]),
    ]
}

/// A left shift keeps the low 64 bits of the product with a power of two.
proof fn lemma_shl_wraps(x: u64, s: u64)
    requires
        s < 64,
    ensures
        x << s == wrap(x * pow2(s as nat)),
    decreases s,
{
    if s == 0 {
        assert(x << 0u64 == x) by (bit_vector);
        lemma2_to64();
        assert(x * pow2(0) == x) by (nonlinear_arith)
            requires
                pow2(0) == 1,
        ;
    } else {
        let t: u64 = (s - 1) as u64;
        lemma_shl_wraps(x, t);
        assert(x << s == (2 * (x << t)) % 0x1_0000_0000_0000_0000) by (bit_vector)
            requires
                0 < s < 64,
                t == s - 1,
        ;
        lemma_pow2_unfold(s as nat);
        let y: int = x * pow2(t as nat);
        assert(x * pow2(s as nat) == 2 * y) by (nonlinear_arith)
            requires
                y == x * pow2(t as nat),
                pow2(s as nat) == 2 * pow2(t as nat),
        ;
        assert(wrap(2 * wrap(y)) == wrap(2 * y));
    }
}

/// Shifting by 64 or more bits leaves nothing.
proof fn lemma_shl_all(x: u64, s: u64)
    requires
        s >= 64,
    ensures
        wrap(x * pow2(s as nat)) == 0,
{
    lemma2_to64();
    lemma_pow2_adds(64, (s - 64) as nat);
    let q = x * pow2((s - 64) as nat);
    assert(x * pow2(s as nat) == q * 0x1_0000_0000_0000_0000) by (nonlinear_arith)
        requires
            q == x * pow2((s - 64) as nat),
            pow2(s as nat) == 0x1_0000_0000_0000_0000 * pow2((s - 64) as nat),
    ;
}

/// Shifts one lane to the left. A shift by 64 or more gives zero.
fn shl_lane(x: u64, s: u64) -> (r: u64)
    ensures
        r == wrap(x * pow2(s as nat)),
{
    if s < 64 {
        proof {
            lemma_shl_wraps(x, s);
        }
        x << s
    } else {
        proof {
            lemma_shl_all(x, s);
        }
        0
    }
}

/// Shifts each lane of `a` to the left by the lane of `shifts`, modulo `2^64`.
pub fn shl_lanes(a: U64x4, shifts: U64x4) -> (r: U64x4)
    ensures
        forall|i: int|
            0 <= i < 4 ==> #[trigger] r[i] == wrap(a[i] * pow2(shifts[i] as nat)),
{
    [
        shl_lane(a[0], shifts[0]),
        shl_lane(a[1], shifts[1]),
        shl_lane(a[2], shifts[2]),
        shl_lane(a[3], shifts[3]),
    ]
}

/// Exchanges lanes 0 and 1, and lanes 2 and 3.
pub fn swap_pairs(a: U64x4) -> (r: U64x4)
    ensures
        forall|i: int| 0 <= i < 4 ==> #[trigger] r[i] == a[partner(i)],
{
    [a[1], a[0], a[3], a[2]]
}

/// The horizontal sum: every lane of the result is the sum of the four lanes of `input`.
pub fn hsum(input: U64x4) -> (r: U64x4)
    requires
        input[0] + input[1] + input[2] + input[3] <= u64::MAX,
    ensures
        forall|i: int|
            0 <= i < 4 ==> #[trigger] r[i] == input[0] + input[1] + input[2] + input[3],
{
    let total: u64 = input[0] + input[1] + input[2] + input[3];
    [total, total, total, total]
}

/// Splits the first row of the first block into the elements 0 of the instances and the rest,
/// each with zeros in place of the other:
///
/// - height 1: `[x0, x4, x8, x12]` gives `[x0, 0, 0, 0]` and `[0, x4, x8, x12]`
/// - height 2 and 3: `[x0, x4, y0, y4]` gives `[x0, 0, y0, 0]` and `[0, x4, 0, y4]`
/// - height 4: `[w0, x0, y0, z0]` gives `[w0, x0, y0, z0]` and `[0, 0, 0, 0]`
pub fn split<const HEIGHT: usize>(input: U64x4) -> (r: (U64x4, U64x4))
    requires
        supported(HEIGHT),
    ensures
        forall|c: int|
            #![trigger r.0[c]]
            0 <= c < 4 ==> r.0[c] == if is_lead(HEIGHT, c) {
                input[c]
            } else {
                0
            },
        forall|c: int|
            #![trigger r.1[c]]
            0 <= c < 4 ==> r.1[c] == if is_lead(HEIGHT, c) {
                0
            } else {
                input[c]
            },
        forall|c: int| 0 <= c < 4 ==> #[trigger] r.0[c] + r.1[c] == input[c],
{
    if HEIGHT == 1 {
        ([input[0], 0, 0, 0], [0, input[1], input[2], input[3]])
    } else if HEIGHT == 2 || HEIGHT == 3 {
        ([input[0], 0, input[2], 0], [0, input[1], 0, input[3]])
    } else {
        (input, [0, 0, 0, 0])
    }
}

/// The lanes of `a` as integers.
pub open spec fn lane_values(a: U64x4) -> Seq<int> {
    Seq::new(4, |i: int| a[i] as int)
}

/// Sums the lanes of each instance, and gives the sum to all of its lanes:
///
/// - height 1: `[a, b, c, d]` gives `a + b + c + d` four times
/// - height 2 and 3: `[a, b, c, d]` gives `[a + b, a + b, c + d, c + d]`
/// - height 4: `[a, b, c, d]` stays as it is
pub fn horizontal_sum<const HEIGHT: usize>(input: U64x4) -> (r: U64x4)
    requires
        supported(HEIGHT),
        HEIGHT == 1 ==> input[0] + input[1] + input[2] + input[3] <= u64::MAX,
    ensures
        forall|c: int|
            0 <= c < 4 ==> #[trigger] r[c] == wrap(
                instance_sum(HEIGHT, lane_values(input), c),
            ),
{
    if HEIGHT == 1 {
        hsum(input)
    } else if HEIGHT == 2 || HEIGHT == 3 {
        let shuffled: U64x4 = swap_pairs(input);
        add_lanes(input, shuffled)
    } else {
        input
    }
}

/// The transpose of a 4x4 matrix of lanes.
pub fn transpose(input: [U64x4; 4]) -> (out: [U64x4; 4])
    ensures
        forall|r: int, c: int| 0 <= r < 4 && 0 <= c < 4 ==> #[trigger] out[r][c] == input[c][r],
{
    [
        [input[0][0], input[1][0], input[2][0], input[3][0]],
        [input[0][1], input[1][1], input[2][1], input[3][1]],
        [input[0][2], input[1][2], input[2][2], input[3][2]],
        [input[0][3], input[1][3], input[2][3], input[3][3]],
    ]
}

} // verus!
