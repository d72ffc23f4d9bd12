use poseidon2::lanes::{
    add_lanes, horizontal_sum, hsum, shl_lanes, split, sub_lanes, swap_pairs, transpose,
};
use poseidon2::tensor::{
    right_mat_mul_i_plus_1_dim_1, right_mat_mul_i_plus_1_dim_2, right_mat_mul_i_plus_1_dim_3,
    right_mat_mul_i_plus_1_dim_4, Packed64bitM31Tensor,
};

/// The tensor whose lanes hold `first`, `first + 1`, ... in memory order.
fn counting<const HEIGHT: usize>(first: u64) -> Packed64bitM31Tensor<HEIGHT> {
    let mut tensor = Packed64bitM31Tensor([[[0; 4]; 4]; HEIGHT]);
    for n in 0..16 * HEIGHT {
        tensor.0[n / 16][(n / 4) % 4][n % 4] = first + n as u64;
    }
    tensor
}

#[test]
fn additions_wrap() {
    assert_eq!(add_lanes([1, 2, 3, u64::MAX], [10, 20, 30, 2]), [11, 22, 33, 1]);
    assert_eq!(sub_lanes([11, 22, 0, 1], [10, 20, 1, 2]), [1, 2, u64::MAX, u64::MAX]);
}

#[test]
fn shifts_drop_what_leaves_the_lane() {
    assert_eq!(shl_lanes([1, 3, 5, 7], [0, 1, 63, 64]), [1, 6, 1 << 63, 0]);
    assert_eq!(
        shl_lanes([u64::MAX, 1, 1, 1], [4, 62, 65, u64::MAX]),
        [u64::MAX - 15, 1 << 62, 0, 0]
    );
}

#[test]
fn pairs_are_swapped() {
    assert_eq!(swap_pairs([1, 2, 3, 4]), [2, 1, 4, 3]);
}

#[test]
fn horizontal_sums() {
    assert_eq!(hsum([1, 2, 3, 4]), [10; 4]);
    assert_eq!(horizontal_sum::<1>([1, 2, 3, 4]), [10; 4]);
    assert_eq!(horizontal_sum::<2>([1, 2, 3, 4]), [3, 3, 7, 7]);
    assert_eq!(horizontal_sum::<3>([1, 2, 3, u64::MAX]), [3, 3, 2, 2]);
    assert_eq!(horizontal_sum::<4>([1, 2, 3, 4]), [1, 2, 3, 4]);
}

#[test]
fn splits() {
    assert_eq!(split::<1>([1, 2, 3, 4]), ([1, 0, 0, 0], [0, 2, 3, 4]));
    assert_eq!(split::<2>([1, 2, 3, 4]), ([1, 0, 3, 0], [0, 2, 0, 4]));
    assert_eq!(split::<3>([1, 2, 3, 4]), ([1, 0, 3, 0], [0, 2, 0, 4]));
    assert_eq!(split::<4>([1, 2, 3, 4]), ([1, 2, 3, 4], [0, 0, 0, 0]));
}

#[test]
fn transposing_twice_changes_nothing() {
    let m = counting::<1>(0).0[0];
    assert_eq!(
        transpose(m),
        [[0, 4, 8, 12], [1, 5, 9, 13], [2, 6, 10, 14], [3, 7, 11, 15]]
    );
    assert_eq!(transpose(transpose(m)), m);
}

#[test]
fn shuffle_of_height_one() {
    let mut t = counting::<1>(0);
    t.shuffle_data();
    assert_eq!(
        t.0,
        [[[0, 4, 8, 12], [1, 5, 9, 13], [2, 6, 10, 14], [3, 7, 11, 15]]]
    );
}

#[test]
fn shuffle_of_height_two() {
    let mut t = counting::<2>(0);
    t.shuffle_data();
    assert_eq!(
        t.0,
        [
            [[0, 4, 16, 20], [1, 5, 17, 21], [2, 6, 18, 22], [3, 7, 19, 23]],
            [[8, 12, 24, 28], [9, 13, 25, 29], [10, 14, 26, 30], [11, 15, 27, 31]],
        ]
    );
}

#[test]
fn shuffle_of_height_three() {
    let mut t = counting::<3>(0);
    t.shuffle_data();
    assert_eq!(
        t.0,
        [
            [[0, 4, 24, 28], [1, 5, 25, 29], [2, 6, 26, 30], [3, 7, 27, 31]],
            [[8, 12, 32, 36], [9, 13, 33, 37], [10, 14, 34, 38], [11, 15, 35, 39]],
            [[16, 20, 40, 44], [17, 21, 41, 45], [18, 22, 42, 46], [19, 23, 43, 47]],
        ]
    );
}

#[test]
fn shuffle_of_height_four() {
    let mut t = counting::<4>(0);
    t.shuffle_data();
    assert_eq!(
        t.0,
        [
            [[0, 16, 32, 48], [1, 17, 33, 49], [2, 18, 34, 50], [3, 19, 35, 51]],
            [[4, 20, 36, 52], [5, 21, 37, 53], [6, 22, 38, 54], [7, 23, 39, 55]],
            [[8, 24, 40, 56], [9, 25, 41, 57], [10, 26, 42, 58], [11, 27, 43, 59]],
            [[12, 28, 44, 60], [13, 29, 45, 61], [14, 30, 46, 62], [15, 31, 47, 63]],
        ]
    );
}

fn round_trips<const HEIGHT: usize>() {
    let data = counting::<HEIGHT>(100);
    let mut t = data;
    t.shuffle_data();
    t.shuffle_data_inverse();
    assert_eq!(t.0, data.0);
    t.shuffle_data_inverse();
    t.shuffle_data();
    assert_eq!(t.0, data.0);
}

#[test]
fn shuffles_undo_each_other() {
    round_trips::<1>();
    round_trips::<2>();
    round_trips::<3>();
    round_trips::<4>();
}

#[test]
fn aes_matrix() {
    let mut t = Packed64bitM31Tensor([[
        [1, 0, 0, 0],
        [0, 1, 0, 0],
        [0, 0, 1, 0],
        [0, 0, 0, 1],
    ]]);
    t.mat_mul_aes();
    assert_eq!(t.0, [[[2, 3, 1, 1], [1, 2, 3, 1], [1, 1, 2, 3], [3, 1, 1, 2]]]);

    let bound: u64 = (1 << 61) - 1;
    let mut t = Packed64bitM31Tensor([[[bound; 4]; 4]; 2]);
    t.mat_mul_aes();
    assert_eq!(t.0, [[[7 * bound; 4]; 4]; 2]);

    let mut t = Packed64bitM31Tensor([[[u64::MAX; 4]; 4]; 1]);
    t.mat_mul_aes();
    assert_eq!(t.0, [[[u64::MAX - 6; 4]; 4]]);
}

#[test]
fn columns_of_height_one() {
    let mut t = counting::<1>(0);
    t.right_mat_mul_i_plus_1();
    assert_eq!(
        t.0,
        [[[6, 7, 8, 9], [26, 27, 28, 29], [46, 47, 48, 49], [66, 67, 68, 69]]]
    );
    let mut m = counting::<1>(0).0[0];
    right_mat_mul_i_plus_1_dim_1(&mut m);
    assert_eq!(m, t.0[0]);
}

#[test]
fn columns_of_height_two() {
    let mut t = counting::<2>(0);
    t.right_mat_mul_i_plus_1();
    // Row 0 holds [0, 1, 2, 3] and [16, 17, 18, 19]: the sums are 34 and 42.
    assert_eq!(t.0[0][0], [34, 35, 44, 45]);
    assert_eq!(t.0[1][0], [50, 51, 60, 61]);
    // Row 3 holds [12, 13, 14, 15] and [28, 29, 30, 31]: the sums are 82 and 90.
    assert_eq!(t.0[0][3], [94, 95, 104, 105]);
    assert_eq!(t.0[1][3], [110, 111, 120, 121]);
    let mut u = counting::<2>(0);
    right_mat_mul_i_plus_1_dim_2(&mut u);
    assert_eq!(u.0, t.0);
}

#[test]
fn columns_of_height_three() {
    let mut t = counting::<3>(0);
    t.right_mat_mul_i_plus_1();
    // Row 0 holds [0, 1, 2, 3], [16, 17, 18, 19] and [32, 33, 34, 35]: 99 and 111.
    assert_eq!(t.0[0][0], [99, 100, 113, 114]);
    assert_eq!(t.0[1][0], [115, 116, 129, 130]);
    assert_eq!(t.0[2][0], [131, 132, 145, 146]);
    let mut u = counting::<3>(0);
    right_mat_mul_i_plus_1_dim_3(&mut u);
    assert_eq!(u.0, t.0);
    let mut ones = Packed64bitM31Tensor([[[1; 4]; 4]; 3]);
    ones.right_mat_mul_i_plus_1();
    assert_eq!(ones.0, [[[7; 4]; 4]; 3]);
}

#[test]
fn columns_of_height_four() {
    let mut t = counting::<4>(0);
    t.right_mat_mul_i_plus_1();
    // Lane 0 of row 0 holds 0, 16, 32 and 48.
    assert_eq!(t.0[0][0], [96, 101, 106, 111]);
    assert_eq!(t.0[3][0], [144, 149, 154, 159]);
    let mut u = counting::<4>(0);
    right_mat_mul_i_plus_1_dim_4(&mut u);
    assert_eq!(u.0, t.0);
    let mut ones = Packed64bitM31Tensor([[[1; 4]; 4]; 4]);
    ones.right_mat_mul_i_plus_1();
    assert_eq!(ones.0, [[[5; 4]; 4]; 4]);
}

#[test]
fn tensors_add_element_by_element() {
    let mut t = counting::<2>(0);
    t.add(counting::<2>(1000));
    assert_eq!(t.0[0][0], [1000, 1002, 1004, 1006]);
    assert_eq!(t.0[1][3], [1056, 1058, 1060, 1062]);
    let mut t = Packed64bitM31Tensor([[[u64::MAX; 4]; 4]; 1]);
    t.add(counting::<1>(0));
    assert_eq!(t.0[0][0], [u64::MAX, 0, 1, 2]);
}

#[test]
fn rows_are_summed() {
    assert_eq!(counting::<1>(0).vec_sum(), [24, 28, 32, 36]);
    assert_eq!(counting::<2>(0).vec_sum(), [112, 120, 128, 136]);
    let full = Packed64bitM31Tensor([[[5; 4]; 4]; 3]);
    assert_eq!(full.vec_sum(), [4 * 3 * 5; 4]);
    let wrapping = Packed64bitM31Tensor([[[1 << 62; 4]; 4]; 1]);
    assert_eq!(wrapping.vec_sum(), [0; 4]);
}

#[test]
fn elements_are_shifted() {
    let mut t = counting::<1>(1);
    t.left_shift(counting::<1>(0));
    assert_eq!(t.0[0][0], [1, 4, 12, 32]);
    assert_eq!(t.0[0][3][3], 16 << 15);
}
