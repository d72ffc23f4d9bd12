//! Where the elements of the packed permutation instances stand in a tensor.
//!
//! A tensor of height `N` is made of `N` blocks of four rows of four lanes.
//!
//! ```text
//! height 1, one instance of width 16:    [x0 x4 x8 x12]
//!                                        [x1 x5 x9 x13]
//!                                        [x2 x6 x10 x14]
//!                                        [x3 x7 x11 x15]
//!
//! height 2, two instances of width 16:   [x0 x4 y0 y4]   [x8  x12 y8  y12]
//!                                        [x1 x5 y1 y5]   [x9  x13 y9  y13]
//!                                        [x2 x6 y2 y6]   [x10 x14 y10 y14]
//!                                        [x3 x7 y3 y7]   [x11 x15 y11 y15]
//!
//! height 3, two instances of width 24:   the same with a third block, which
//!                                        starts with [x16 x20 y16 y20]
//!
//! height 4, four instances of width 16:  [w0 x0 y0 z0]   [w4 x4 y4 z4]   ...
//!                                        [w1 x1 y1 z1]   [w5 x5 y5 z5]   ...
//!                                        [w2 x2 y2 z2]   [w6 x6 y6 z6]   ...
//!                                        [w3 x3 y3 z3]   [w7 x7 y7 z7]   ...
//! ```
use vstd::prelude::*;

verus! {

/// The heights that have a layout.
pub open spec fn supported(height: usize) -> bool {
    1 <= height <= 4
}

/// How many permutation instances a tensor holds.
pub open spec fn instances(height: usize) -> nat {
    if height == 1 {
        1
    } else if height == 4 {
        4
    } else {
        2
    }
}

/// How many elements one instance has.
pub open spec fn width(height: usize) -> nat {
    if height == 3 {
        24
    } else {
        16
    }
}

/// The block that holds element `i` of an instance.
pub open spec fn block_of(height: usize, i: int) -> int {
    if height == 1 {
        0
    } else if height == 4 {
        i / 4
    } else {
        i / 8
    }
}

/// The row that holds element `i` of an instance.
pub open spec fn row_of(i: int) -> int {
    i % 4
}

/// The lane that holds element `i` of instance `k`.
pub open spec fn lane_of(height: usize, k: int, i: int) -> int {
    if height == 1 {
        i / 4
    } else if height == 4 {
        k
    } else {
        2 * k + (i / 4) % 2
    }
}

/// The instance that lane `c` belongs to.
pub open spec fn instance_at(height: usize, c: int) -> int {
    if height == 1 {
        0
    } else if height == 4 {
        c
    } else {
        c / 2
    }
}

/// The index, within its instance, of the element in block `h`, row `r` and lane `c`.
pub open spec fn element_at(height: usize, h: int, r: int, c: int) -> int {
    if height == 1 {
        4 * c + r
    } else if height == 4 {
        4 * h + r
    } else {
        8 * h + 4 * (c % 2) + r
    }
}

/// Lane `c` of the first row of the first block holds element 0 of its instance.
pub open spec fn is_lead(height: usize, c: int) -> bool {
    if height == 1 {
        c == 0
    } else if height == 4 {
        true
    } else {
        c % 2 == 0
    }
}

/// The other lane of the pair that lane `c` belongs to.
pub open spec fn partner(c: int) -> int {
    if c % 2 == 0 {
        c + 1
    } else {
        c - 1
    }
}

/// The sum of the lanes of `v` that belong to the same instance as lane `c`.
pub open spec fn instance_sum(height: usize, v: Seq<int>, c: int) -> int {
    if height == 1 {
        v[0] + v[1] + v[2] + v[3]
    } else if height == 4 {
        v[c]
    } else {
        v[c] + v[partner(c)]
    }
}

/// Every element of every instance has a place in the tensor, and the place leads back to it.
pub proof fn lemma_place_of_element(height: usize, k: int, i: int)
    requires
        supported(height),
        0 <= k < instances(height),
        0 <= i < width(height),
    ensures
        0 <= block_of(height, i) < height,
        0 <= row_of(i) < 4,
        0 <= lane_of(height, k, i) < 4,
        instance_at(height, lane_of(height, k, i)) == k,
        element_at(height, block_of(height, i), row_of(i), lane_of(height, k, i)) == i,
{
}

/// Every place in the tensor holds an element of some instance, which leads back to the place.
pub proof fn lemma_element_of_place(height: usize, h: int, r: int, c: int)
    requires
        supported(height),
        0 <= h < height,
        0 <= r < 4,
        0 <= c < 4,
    ensures
        0 <= instance_at(height, c) < instances(height),
        0 <= element_at(height, h, r, c) < width(height),
        block_of(height, element_at(height, h, r, c)) == h,
        row_of(element_at(height, h, r, c)) == r,
        lane_of(height, instance_at(height, c), element_at(height, h, r, c)) == c,
{
}

} // verus!
