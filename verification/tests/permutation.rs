use poseidon2::external::{
    final_external_rounds, initial_external_rounds, rotated_external_round,
};
use poseidon2::helpers::{Poseidon2AVX2Helpers, Poseidon2AVX2Methods};
use poseidon2::internal::{internal_round, internal_rounds};
use poseidon2::lanes::U64x4;
use poseidon2::model::{FieldModel, Instance, Instances};
use poseidon2::mds::MdsPermutation;
use poseidon2::permutation::Poseidon2AVX2;
use poseidon2::tensor::Packed64bitM31Tensor;

const P: u64 = 0x7800_0001;
/// The inverse of `2^32` modulo `P`.
const R_INV: u64 = 943718400;
const SHIFTS_16: [u64; 16] = [0, 0, 1, 2, 3, 4, 5, 6, 7, 8, 9, 10, 11, 12, 13, 15];
const SHIFTS_24: [u64; 24] = [
    0, 0, 1, 2, 3, 4, 5, 6, 7, 8, 9, 10, 11, 12, 13, 14, 15, 16, 18, 19, 20, 21, 22, 23,
];

fn power_7(x: u64) -> u64 {
    let x = x % P;
    let x2 = x * x % P;
    let x4 = x2 * x2 % P;
    x4 * x2 % P * x % P
}

fn reduce(x: u64) -> u64 {
    x % P * R_INV % P
}

/// A field of 31 bits with the s-box `x -> x^7`.
#[derive(Clone, Copy, Debug)]
struct Bear;

impl Poseidon2AVX2Helpers for Bear {
    // The ghost items of the traits are not run.

    fn field() -> FieldModel {
        unreachable!()
    }

    fn partially_reduced(_: U64x4) -> U64x4 {
        unreachable!()
    }

    fn joint_sboxed(_: U64x4) -> U64x4 {
        unreachable!()
    }

    fn quad_sboxed(_: U64x4, _: u32) -> U64x4 {
        unreachable!()
    }

    fn double_sboxed(_: U64x4, _: u32) -> U64x4 {
        unreachable!()
    }

    fn scalar_sboxed(_: U64x4, _: u32) -> U64x4 {
        unreachable!()
    }

    fn field_facts() {}

    fn full_reduce_vec(state: U64x4) -> U64x4 {
        assert!(state.iter().all(|x| *x < P << 32));
        state.map(reduce)
    }

    fn partial_reduce_vec(state: U64x4) -> U64x4 {
        assert!(state.iter().all(|x| *x < P << 32));
        // Not canonical where the element is odd.
        state.map(|x| {
            let y = reduce(x);
            y + (y % 2) * P
        })
    }

    fn joint_sbox_vec(state: U64x4) -> U64x4 {
        assert!(state.iter().all(|x| *x < P));
        state.map(|x| {
            let y = power_7(x);
            y + (y % 3) * P
        })
    }

    fn quad_internal_sbox(s0: U64x4, rc: u32) -> U64x4 {
        s0.map(|x| power_7(x.wrapping_add(rc as u64)))
    }

    fn double_internal_sbox(s0: U64x4, rc: u32) -> U64x4 {
        let [x, _, y, _] = s0.map(|x| power_7(x.wrapping_add(rc as u64)));
        [x, 0, y, 0]
    }

    fn scalar_internal_sbox(s0: U64x4, rc: u32) -> U64x4 {
        // The idle lanes only have to vanish modulo the prime.
        [power_7(s0[0].wrapping_add(rc as u64)), P, 0, 2 * P]
    }

    const PACKED_3XPRIME: U64x4 = [3 * P; 4];
}

/// The tensor whose instances are those of `data`.
fn pack<const HEIGHT: usize, const WIDTH: usize, const N: usize>(
    data: [[u32; WIDTH]; N],
) -> Packed64bitM31Tensor<HEIGHT> {
    assert_eq!(WIDTH * N, 16 * HEIGHT);
    let mut tensor = Packed64bitM31Tensor([[[0; 4]; 4]; HEIGHT]);
    for n in 0..16 * HEIGHT {
        tensor.0[n / 16][(n / 4) % 4][n % 4] = data[n / WIDTH][n % WIDTH] as u64;
    }
    tensor.shuffle_data();
    tensor
}

/// The instances that a tensor holds.
fn unpack<const HEIGHT: usize, const WIDTH: usize, const N: usize>(
    mut tensor: Packed64bitM31Tensor<HEIGHT>,
) -> [[u64; WIDTH]; N] {
    tensor.shuffle_data_inverse();
    let mut data = [[0; WIDTH]; N];
    for n in 0..16 * HEIGHT {
        data[n / WIDTH][n % WIDTH] = tensor.0[n / 16][(n / 4) % 4][n % 4];
    }
    data
}

fn narrow<const WIDTH: usize, const N: usize>(data: [[u64; WIDTH]; N]) -> [[u32; WIDTH]; N] {
    data.map(|x| x.map(|y| u32::try_from(y).unwrap()))
}

const fn spread_16<const HEIGHT: usize>(lanes: usize) -> Packed64bitM31Tensor<HEIGHT> {
    // `lanes` is how many lanes an instance has in a row.
    let mut t = Packed64bitM31Tensor([[[0; 4]; 4]; HEIGHT]);
    let mut h = 0;
    while h < HEIGHT {
        let mut n = 0;
        while n < 16 {
            t.0[h][n / 4][n % 4] = SHIFTS_16[4 * (h * lanes + (n % 4) % lanes) + n / 4];
            n += 1;
        }
        h += 1;
    }
    t
}

const fn spread_24() -> Packed64bitM31Tensor<3> {
    let mut t = Packed64bitM31Tensor([[[0; 4]; 4]; 3]);
    let mut h = 0;
    while h < 3 {
        let mut n = 0;
        while n < 16 {
            t.0[h][n / 4][n % 4] = SHIFTS_24[4 * (h * 2 + (n % 4) % 2) + n / 4];
            n += 1;
        }
        h += 1;
    }
    t
}

impl Poseidon2AVX2Methods<1> for Bear {
    type Field = u32;
    type InputOutput = [[u32; 16]; 1];
    type ExternalConstantsInput = [u32; 16];

    fn input_instances(_: [[u32; 16]; 1]) -> Instances {
        unreachable!()
    }

    fn output_of(_: Instances) -> [[u32; 16]; 1] {
        unreachable!()
    }

    fn external_constants(_: [u32; 16]) -> Instance {
        unreachable!()
    }

    fn internal_constant(_: u32) -> u32 {
        unreachable!()
    }

    fn conversion_facts(_: Instances) {}

    fn shift_facts() {}

    fn from_input(input: [[u32; 16]; 1]) -> Packed64bitM31Tensor<1> {
        pack(input)
    }

    fn to_output(output: Packed64bitM31Tensor<1>) -> [[u32; 16]; 1] {
        narrow(unpack(output))
    }

    fn manipulate_external_constants(input: [u32; 16]) -> Packed64bitM31Tensor<1> {
        pack([input; 1])
    }

    fn manipulate_internal_constants(input: u32) -> u32 {
        input
    }

    const INTERNAL_SHIFTS: Packed64bitM31Tensor<1> = spread_16(4);
}

impl Poseidon2AVX2Methods<2> for Bear {
    type Field = u32;
    type InputOutput = [[u32; 16]; 2];
    type ExternalConstantsInput = [u32; 16];

    fn input_instances(_: [[u32; 16]; 2]) -> Instances {
        unreachable!()
    }

    fn output_of(_: Instances) -> [[u32; 16]; 2] {
        unreachable!()
    }

    fn external_constants(_: [u32; 16]) -> Instance {
        unreachable!()
    }

    fn internal_constant(_: u32) -> u32 {
        unreachable!()
    }

    fn conversion_facts(_: Instances) {}

    fn shift_facts() {}

    fn from_input(input: [[u32; 16]; 2]) -> Packed64bitM31Tensor<2> {
        pack(input)
    }

    fn to_output(output: Packed64bitM31Tensor<2>) -> [[u32; 16]; 2] {
        narrow(unpack(output))
    }

    fn manipulate_external_constants(input: [u32; 16]) -> Packed64bitM31Tensor<2> {
        pack([input; 2])
    }

    fn manipulate_internal_constants(input: u32) -> u32 {
        input
    }

    const INTERNAL_SHIFTS: Packed64bitM31Tensor<2> = spread_16(2);
}

impl Poseidon2AVX2Methods<3> for Bear {
    type Field = u32;
    type InputOutput = [[u32; 24]; 2];
    type ExternalConstantsInput = [u32; 24];

    fn input_instances(_: [[u32; 24]; 2]) -> Instances {
        unreachable!()
    }

    fn output_of(_: Instances) -> [[u32; 24]; 2] {
        unreachable!()
    }

    fn external_constants(_: [u32; 24]) -> Instance {
        unreachable!()
    }

    fn internal_constant(_: u32) -> u32 {
        unreachable!()
    }

    fn conversion_facts(_: Instances) {}

    fn shift_facts() {}

    fn from_input(input: [[u32; 24]; 2]) -> Packed64bitM31Tensor<3> {
        pack(input)
    }

    fn to_output(output: Packed64bitM31Tensor<3>) -> [[u32; 24]; 2] {
        narrow(unpack(output))
    }

    fn manipulate_external_constants(input: [u32; 24]) -> Packed64bitM31Tensor<3> {
        pack([input; 2])
    }

    fn manipulate_internal_constants(input: u32) -> u32 {
        input
    }

    const INTERNAL_SHIFTS: Packed64bitM31Tensor<3> = spread_24();
}

impl Poseidon2AVX2Methods<4> for Bear {
    type Field = u32;
    type InputOutput = [[u32; 16]; 4];
    type ExternalConstantsInput = [u32; 16];

    fn input_instances(_: [[u32; 16]; 4]) -> Instances {
        unreachable!()
    }

    fn output_of(_: Instances) -> [[u32; 16]; 4] {
        unreachable!()
    }

    fn external_constants(_: [u32; 16]) -> Instance {
        unreachable!()
    }

    fn internal_constant(_: u32) -> u32 {
        unreachable!()
    }

    fn conversion_facts(_: Instances) {}

    fn shift_facts() {}

    fn from_input(input: [[u32; 16]; 4]) -> Packed64bitM31Tensor<4> {
        pack(input)
    }

    fn to_output(output: Packed64bitM31Tensor<4>) -> [[u32; 16]; 4] {
        narrow(unpack(output))
    }

    fn manipulate_external_constants(input: [u32; 16]) -> Packed64bitM31Tensor<4> {
        pack([input; 4])
    }

    fn manipulate_internal_constants(input: u32) -> u32 {
        input
    }

    const INTERNAL_SHIFTS: Packed64bitM31Tensor<4> = spread_16(1);
}

/// Canonical elements that look random.
fn sample(seed: u64) -> u32 {
    let mut x = seed.wrapping_mul(0x9e37_79b9_7f4a_7c15).wrapping_add(0x1234_5678_9abc_def1);
    x ^= x >> 31;
    x = x.wrapping_mul(0xbf58_476d_1ce4_e5b9);
    x ^= x >> 29;
    (x % P) as u32
}

fn samples<const WIDTH: usize>(seed: u64) -> [u32; WIDTH] {
    let mut out = [0; WIDTH];
    for i in 0..WIDTH {
        out[i] = sample(1000 * seed + i as u64);
    }
    out
}

// The permutation on one instance, written as a matrix product and with a reduction at every
// step.

fn external_matrix<const WIDTH: usize>(x: [u64; WIDTH]) -> [u64; WIDTH] {
    let m4 = [[2, 3, 1, 1], [1, 2, 3, 1], [1, 1, 2, 3], [3, 1, 1, 2]];
    let mut out = [0; WIDTH];
    for i in 0..WIDTH {
        for j in 0..WIDTH {
            let twice = if i / 4 == j / 4 { 2 } else { 1 };
            out[i] = (out[i] + twice * m4[i % 4][j % 4] * x[j]) % P;
        }
    }
    out
}

fn internal_matrix<const WIDTH: usize>(shifts: &[u64], x: [u64; WIDTH]) -> [u64; WIDTH] {
    let mut out = [0; WIDTH];
    for i in 0..WIDTH {
        for j in 0..WIDTH {
            let diagonal = if i != j {
                0
            } else if i == 0 {
                P - 2
            } else {
                1 << shifts[i]
            };
            out[i] = (out[i] + (diagonal + 1) * x[j]) % P;
        }
    }
    out
}

fn constants_and_sbox<const WIDTH: usize>(rc: [u32; WIDTH], x: [u64; WIDTH]) -> [u64; WIDTH] {
    let mut out = [0; WIDTH];
    for i in 0..WIDTH {
        out[i] = power_7(reduce(x[i] + rc[i] as u64));
    }
    out
}

fn internal_step<const WIDTH: usize>(shifts: &[u64], rc: u32, x: [u64; WIDTH]) -> [u64; WIDTH] {
    let mut y = x;
    y[0] = power_7(x[0] + rc as u64);
    internal_matrix(shifts, y).map(reduce)
}

fn expected<const WIDTH: usize>(
    shifts: &[u64],
    initial: &[[u32; WIDTH]],
    internal: &[u32],
    last: &[[u32; WIDTH]],
    x: [u32; WIDTH],
) -> [u32; WIDTH] {
    let mut x = external_matrix(x.map(|y| y as u64));
    for rc in initial {
        x = external_matrix(constants_and_sbox(*rc, x));
    }
    x = x.map(reduce);
    for rc in internal {
        x = internal_step(shifts, *rc, x);
    }
    for rc in last {
        x = external_matrix(constants_and_sbox(*rc, x));
    }
    x.map(|y| reduce(y) as u32)
}

fn constants_16() -> (Vec<[u32; 16]>, Vec<u32>) {
    ((0..8).map(samples).collect(), (0..13).map(|j| sample(77_000 + j)).collect())
}

fn constants_24() -> (Vec<[u32; 24]>, Vec<u32>) {
    ((0..8).map(samples).collect(), (0..21).map(|j| sample(88_000 + j)).collect())
}

fn expected_16(x: [u32; 16]) -> [u32; 16] {
    let (external, internal) = constants_16();
    expected(&SHIFTS_16, &external[..4], &internal, &external[4..], x)
}

#[test]
fn inverse_of_the_radix() {
    assert_eq!((1u64 << 32) % P * R_INV % P, 1);
}

#[test]
fn permutes_one_instance() {
    let (external, internal) = constants_16();
    let permutation = Poseidon2AVX2::<1, Bear>::new_from_rng_128(8, 13, &external, &internal);
    for seed in 100..120 {
        let input = [samples(seed)];
        assert_eq!(permutation.permute(input), input.map(expected_16));
    }
}

#[test]
fn permutes_two_instances() {
    let (external, internal) = constants_16();
    let permutation = Poseidon2AVX2::<2, Bear>::new_from_rng_128(8, 13, &external, &internal);
    for seed in 100..120 {
        let input = [samples(seed), samples(seed + 1)];
        assert_eq!(permutation.permute(input), input.map(expected_16));
    }
}

#[test]
fn permutes_two_wide_instances() {
    let (external, internal) = constants_24();
    let permutation = Poseidon2AVX2::<3, Bear>::new_from_rng_128(8, 21, &external, &internal);
    for seed in 100..120 {
        let input = [samples(seed), samples(seed + 1)];
        let wanted =
            input.map(|x| expected(&SHIFTS_24, &external[..4], &internal, &external[4..], x));
        assert_eq!(permutation.permute(input), wanted);
    }
}

#[test]
fn permutes_four_instances() {
    let (external, internal) = constants_16();
    let permutation = Poseidon2AVX2::<4, Bear>::new_from_rng_128(8, 13, &external, &internal);
    for seed in 100..120 {
        let input = [samples(seed), samples(seed + 1), samples(seed + 2), samples(seed + 3)];
        assert_eq!(permutation.permute(input), input.map(expected_16));
    }
}

#[test]
fn heights_agree() {
    let (external, internal) = constants_16();
    let one = Poseidon2AVX2::<1, Bear>::new_from_rng_128(8, 13, &external, &internal);
    let two = Poseidon2AVX2::<2, Bear>::new_from_rng_128(8, 13, &external, &internal);
    let four = Poseidon2AVX2::<4, Bear>::new_from_rng_128(8, 13, &external, &internal);
    let x: [[u32; 16]; 4] = [samples(1), samples(2), samples(3), samples(4)];
    let together = four.permute(x);
    for k in 0..4 {
        assert_eq!(one.permute([x[k]]), [together[k]]);
    }
    assert_eq!(two.permute([x[0], x[1]]), [together[0], together[1]]);
    assert_eq!(two.permute([x[3], x[2]]), [together[3], together[2]]);
}

#[test]
fn extreme_inputs() {
    let (external, internal) = constants_16();
    let permutation = Poseidon2AVX2::<1, Bear>::new_from_rng_128(8, 13, &external, &internal);
    for value in [0, 1, P as u32 - 1] {
        assert_eq!(permutation.permute([[value; 16]]), [expected_16([value; 16])]);
    }
    // Elements of 32 bits that are not canonical stand for their residues.
    assert_eq!(permutation.permute([[P as u32 + 5; 16]]), permutation.permute([[5; 16]]));
    assert_eq!(
        permutation.permute([[u32::MAX; 16]]),
        permutation.permute([[(u32::MAX as u64 % P) as u32; 16]])
    );
}

#[test]
fn permutes_in_place() {
    let (external, internal) = constants_16();
    let permutation = Poseidon2AVX2::<2, Bear>::new_from_rng_128(8, 13, &external, &internal);
    let input = [samples(5), samples(6)];
    let mut data = input;
    permutation.permute_mut(&mut data);
    assert_eq!(data, permutation.permute(input));
    assert_ne!(data, input);
    let mut again = input;
    permutation.clone().permute_mut(&mut again);
    assert_eq!(again, data);
}

#[test]
fn different_inputs_have_different_results() {
    let (external, internal) = constants_16();
    let permutation = Poseidon2AVX2::<1, Bear>::new_from_rng_128(8, 13, &external, &internal);
    let results: Vec<_> = (0..50).map(|v| permutation.permute([[v; 16]])).collect();
    for i in 0..results.len() {
        for j in 0..i {
            assert_ne!(results[i], results[j]);
        }
    }
}

#[test]
fn constants_are_taken_in_order() {
    let (external, internal) = constants_16();
    let drawn = Poseidon2AVX2::<1, Bear>::new_from_rng_128(4, 2, &external, &internal);
    let make = |x: [u32; 16]| <Bear as Poseidon2AVX2Methods<1>>::manipulate_external_constants(x);
    let built = Poseidon2AVX2::<1, Bear>::new(
        vec![make(external[0]), make(external[1])],
        vec![internal[0], internal[1]],
        vec![make(external[2]), make(external[3])],
    );
    let input = [samples(9)];
    assert_eq!(drawn.permute(input), built.permute(input));
    // An odd number of external rounds is rounded down.
    let odd = Poseidon2AVX2::<1, Bear>::new_from_rng_128(5, 2, &external, &internal);
    assert_eq!(odd.permute(input), built.permute(input));
    let other = Poseidon2AVX2::<1, Bear>::new_from_rng_128(4, 3, &external, &internal);
    assert_ne!(other.permute(input), built.permute(input));
}

#[test]
fn external_round_takes_unreduced_elements() {
    let rc: [u32; 24] = samples(3);
    let constants = <Bear as Poseidon2AVX2Methods<3>>::manipulate_external_constants(rc);
    let big = (1u64 << 50) - 1;
    let mut state = Packed64bitM31Tensor([[[big; 4]; 4]; 3]);
    rotated_external_round::<3, Bear>(&mut state, &constants);
    let wanted = constants_and_sbox(rc, external_matrix([big % P; 24]));
    let found: [[u64; 24]; 2] = unpack(state);
    for instance in found {
        assert!(instance.iter().all(|x| *x < 1 << 33));
        assert_eq!(instance.map(|x| x % P), wanted);
    }
}

#[test]
fn initial_rounds_without_constants() {
    let x: [u32; 16] = samples(8);
    let mut state: Packed64bitM31Tensor<1> = pack([x]);
    initial_external_rounds::<1, Bear>(&mut state, &[]);
    let found: [[u64; 16]; 1] = unpack(state);
    assert_eq!(found[0], external_matrix(x.map(|y| y as u64)).map(reduce));
}

#[test]
fn internal_round_on_all_heights() {
    fn check<const HEIGHT: usize, const WIDTH: usize, const N: usize>(shifts: &[u64])
    where
        Bear: Poseidon2AVX2Methods<HEIGHT>,
    {
        let mut data = [[0u32; WIDTH]; N];
        for k in 0..N {
            data[k] = samples(40 + k as u64);
            // The largest element that a round takes.
            data[k][3] = u32::MAX;
        }
        let rc = sample(4);
        let mut state: Packed64bitM31Tensor<HEIGHT> = pack(data);
        internal_round::<HEIGHT, Bear>(&mut state, rc);
        let found: [[u64; WIDTH]; N] = unpack(state);
        for k in 0..N {
            assert!(found[k].iter().all(|x| *x < 2 * P));
            let wanted = internal_step(shifts, rc, data[k].map(|y| y as u64));
            assert_eq!(found[k].map(|x| x % P), wanted);
        }
    }
    check::<1, 16, 1>(&SHIFTS_16);
    check::<2, 16, 2>(&SHIFTS_16);
    check::<3, 24, 2>(&SHIFTS_24);
    check::<4, 16, 4>(&SHIFTS_16);
}

#[test]
fn internal_rounds_without_constants() {
    let mut state: Packed64bitM31Tensor<2> = pack([samples::<16>(1), samples::<16>(2)]);
    let before = state;
    internal_rounds::<2, Bear>(&mut state, &[]);
    assert_eq!(state.0, before.0);
}

#[test]
fn internal_rounds_without_constants_take_any_lanes() {
    let mut state = Packed64bitM31Tensor([[[u64::MAX; 4]; 4]; 1]);
    internal_rounds::<1, Bear>(&mut state, &[]);
    assert_eq!(state.0, [[[u64::MAX; 4]; 4]; 1]);
}

#[test]
fn rows_are_what_the_field_returns() {
    fn check<const HEIGHT: usize>(single: impl Fn(U64x4, u32) -> U64x4, lanes: U64x4)
    where
        Bear: Poseidon2AVX2Methods<HEIGHT>,
    {
        let mut state = Packed64bitM31Tensor([[[0; 4]; 4]; HEIGHT]);
        for n in 0..16 * HEIGHT {
            state.0[n / 16][(n / 4) % 4][n % 4] = sample(500 + n as u64) as u64;
        }
        let before = state;
        <Bear as Poseidon2AVX2Methods<HEIGHT>>::joint_sbox(&mut state);
        assert_eq!(state.0, before.0.map(|block| block.map(Bear::joint_sbox_vec)));
        let before = state;
        <Bear as Poseidon2AVX2Methods<HEIGHT>>::partial_reduce(&mut state);
        assert_eq!(state.0, before.0.map(|block| block.map(Bear::partial_reduce_vec)));
        let before = state;
        <Bear as Poseidon2AVX2Methods<HEIGHT>>::full_reduce(&mut state);
        assert_eq!(state.0, before.0.map(|block| block.map(Bear::full_reduce_vec)));
        // The height alone says which s-box it is, for lanes and constants of any size.
        let any = [u64::MAX, P, 1 << 40, 3];
        for (s0, rc) in [(lanes, 11), (any, 11), (any, u32::MAX)] {
            let out = <Bear as Poseidon2AVX2Methods<HEIGHT>>::internal_sbox(s0, rc);
            assert_eq!(out, single(s0, rc));
        }
    }
    check::<1>(Bear::scalar_internal_sbox, [5, 0, 0, 0]);
    check::<2>(Bear::double_internal_sbox, [5, 0, 6, 0]);
    check::<3>(Bear::double_internal_sbox, [5, 0, 6, 0]);
    check::<4>(Bear::quad_internal_sbox, [5, 6, 7, 8]);
}

/// A state of lanes below `2^50`.
fn unreduced_state<const HEIGHT: usize>() -> Packed64bitM31Tensor<HEIGHT> {
    let mut state = Packed64bitM31Tensor([[[0; 4]; 4]; HEIGHT]);
    for n in 0..16 * HEIGHT {
        state.0[n / 16][(n / 4) % 4][n % 4] = (sample(600 + n as u64) as u64) << 19;
    }
    state
}

/// Canonical round constants.
fn tensors<const HEIGHT: usize>(count: usize) -> Vec<Packed64bitM31Tensor<HEIGHT>> {
    let mut out = Vec::new();
    for j in 0..count {
        let mut tensor = Packed64bitM31Tensor([[[0; 4]; 4]; HEIGHT]);
        for n in 0..16 * HEIGHT {
            tensor.0[n / 16][(n / 4) % 4][n % 4] = sample((1000 * j + 700 + n) as u64) as u64;
        }
        out.push(tensor);
    }
    out
}

#[test]
fn initial_rounds_by_final_rounds() {
    fn check<const HEIGHT: usize>()
    where
        Bear: Poseidon2AVX2Methods<HEIGHT>,
    {
        for count in 1..4 {
            let constants = tensors::<HEIGHT>(count);
            let mut whole = unreduced_state::<HEIGHT>();
            let mut parts = whole;
            initial_external_rounds::<HEIGHT, Bear>(&mut whole, &constants);
            parts.mat_mul_aes();
            parts.right_mat_mul_i_plus_1();
            final_external_rounds::<HEIGHT, Bear>(&mut parts, &constants);
            <Bear as Poseidon2AVX2Methods<HEIGHT>>::full_reduce(&mut parts);
            assert_eq!(whole.0, parts.0);
        }
    }
    check::<1>();
    check::<2>();
    check::<3>();
    check::<4>();
}

#[test]
fn initial_rounds_by_single_rounds() {
    fn check<const HEIGHT: usize>()
    where
        Bear: Poseidon2AVX2Methods<HEIGHT>,
    {
        for count in 0..4 {
            let constants = tensors::<HEIGHT>(count);
            let mut whole = unreduced_state::<HEIGHT>();
            let mut parts = whole;
            initial_external_rounds::<HEIGHT, Bear>(&mut whole, &constants);
            for constant in &constants {
                rotated_external_round::<HEIGHT, Bear>(&mut parts, constant);
            }
            parts.mat_mul_aes();
            parts.right_mat_mul_i_plus_1();
            <Bear as Poseidon2AVX2Methods<HEIGHT>>::full_reduce(&mut parts);
            assert_eq!(whole.0, parts.0);
        }
    }
    check::<1>();
    check::<2>();
    check::<3>();
    check::<4>();
}

#[test]
fn internal_rounds_in_two_calls() {
    fn check<const HEIGHT: usize>()
    where
        Bear: Poseidon2AVX2Methods<HEIGHT>,
    {
        let constants: Vec<u32> = (0..5).map(|j| sample(900 + j)).collect();
        let start = tensors::<HEIGHT>(1)[0];
        let mut whole = start;
        internal_rounds::<HEIGHT, Bear>(&mut whole, &constants);
        for split in 0..=5 {
            let mut parts = start;
            internal_rounds::<HEIGHT, Bear>(&mut parts, &constants[..split]);
            assert!(parts.0.iter().flatten().flatten().all(|x| *x < 1 << 32));
            internal_rounds::<HEIGHT, Bear>(&mut parts, &constants[split..]);
            assert_eq!(whole.0, parts.0);
        }
        let mut one = start;
        let mut single = start;
        internal_rounds::<HEIGHT, Bear>(&mut one, &constants[..1]);
        internal_round::<HEIGHT, Bear>(&mut single, constants[0]);
        assert_eq!(one.0, single.0);
    }
    check::<1>();
    check::<2>();
    check::<3>();
    check::<4>();
}

#[test]
fn final_rounds_in_two_calls() {
    fn check<const HEIGHT: usize>()
    where
        Bear: Poseidon2AVX2Methods<HEIGHT>,
    {
        let constants = tensors::<HEIGHT>(4);
        let start = unreduced_state::<HEIGHT>();
        let mut whole = start;
        final_external_rounds::<HEIGHT, Bear>(&mut whole, &constants);
        for split in 1..4 {
            let mut parts = start;
            final_external_rounds::<HEIGHT, Bear>(&mut parts, &constants[..split]);
            final_external_rounds::<HEIGHT, Bear>(&mut parts, &constants[split..]);
            assert_eq!(whole.0, parts.0);
        }
        let mut one = start;
        let mut single = start;
        final_external_rounds::<HEIGHT, Bear>(&mut one, &constants[..1]);
        single.add(constants[0]);
        <Bear as Poseidon2AVX2Methods<HEIGHT>>::full_reduce(&mut single);
        <Bear as Poseidon2AVX2Methods<HEIGHT>>::joint_sbox(&mut single);
        single.mat_mul_aes();
        single.right_mat_mul_i_plus_1();
        assert_eq!(one.0, single.0);
    }
    check::<1>();
    check::<2>();
    check::<3>();
    check::<4>();
}

#[test]
fn final_rounds_are_not_reduced() {
    let x: [u32; 16] = samples(8);
    let rc: [[u32; 16]; 2] = [samples(1), samples(2)];
    let constants = rc.map(<Bear as Poseidon2AVX2Methods<1>>::manipulate_external_constants);
    let mut state: Packed64bitM31Tensor<1> = pack([x]);
    final_external_rounds::<1, Bear>(&mut state, &constants);
    let found: [[u64; 16]; 1] = unpack(state);
    let mut wanted = x.map(|y| y as u64);
    for c in rc {
        wanted = external_matrix(constants_and_sbox(c, wanted));
    }
    assert!(found[0].iter().all(|x| *x < 49 << 33));
    assert!(found[0].iter().any(|x| *x >= P));
    assert_eq!(found[0].map(|x| x % P), wanted);
}

#[test]
fn mds_permutations_can_be_marked() {
    struct Circulant;

    impl MdsPermutation<u64, 4> for Circulant {}

    fn width<const WIDTH: usize, M: MdsPermutation<u64, WIDTH>>(_: &M) -> usize {
        WIDTH
    }

    assert_eq!(width(&Circulant), 4);
}
