//! The permutation permutes: it is one to one, and onto, on instances of canonical elements.
use crate::field::{
    all_congruent, congruent, lemma_congruent_add, lemma_congruent_mul, lemma_monty_reduce_unique,
    monty_reduce,
};
use crate::model::{
    add_column_sums, aes_mix, column_sum, external_layer, internal_layer, FieldModel,
};
use crate::number_theory::{
    is_prime, lemma_odd_prime, lemma_power_injective, lemma_prime_cancel,
};
use vstd::arithmetic::div_mod::*;
use vstd::arithmetic::power::pow;
use vstd::prelude::*;
use vstd::relations::injective_on;
use vstd::set_lib::*;

verus! {

/// All elements lie in `[0, p)`.
pub open spec fn canonical(x: Seq<int>, p: int) -> bool {
    forall|i: int| 0 <= i < x.len() ==> 0 <= #[trigger] x[i] < p
}

/// The matrix of the internal linear layer is invertible modulo `p`, for `width` elements.
pub open spec fn internal_layer_invertible(shifts: Seq<int>, width: nat, p: int) -> bool {
    forall|x: Seq<int>, y: Seq<int>|
        x.len() == width && y.len() == width && #[trigger] all_congruent(
            internal_layer(shifts, x),
            internal_layer(shifts, y),
            p,
        ) ==> all_congruent(x, y, p)
}

proof fn lemma_zero_combination(k: int, a: int, l: int, b: int, p: int)
    requires
        p > 0,
        a % p == 0,
        b % p == 0,
    ensures
        (k * a + l * b) % p == 0,
{
    lemma_small_mod(0, p as nat);
    lemma_congruent_mul(k, k, a, 0, p);
    lemma_congruent_mul(l, l, b, 0, p);
    lemma_congruent_add(k * a, 0, l * b, 0, p);
}

/// A small factor can be dropped.
proof fn lemma_zero_factor(k: int, a: int, p: int)
    requires
        is_prime(p),
        0 < k < p,
        (k * a) % p == 0,
    ensures
        a % p == 0,
{
    lemma_small_mod(0, p as nat);
    lemma_small_mod(k as nat, p as nat);
    assert(k * 0 == 0);
    lemma_prime_cancel(k, a, 0, p);
}

/// The matrix of [`aes_mix`] takes no other vector than zero to zero.
proof fn lemma_aes_kernel(a: int, b: int, c: int, d: int, p: int)
    requires
        is_prime(p),
        p > 7,
        (2 * a + 3 * b + c + d) % p == 0,
        (2 * b + 3 * c + d + a) % p == 0,
        (2 * c + 3 * d + a + b) % p == 0,
        (2 * d + 3 * a + b + c) % p == 0,
    ensures
        a % p == 0,
{
    let f1 = 2 * a + 3 * b + c + d;
    let f2 = 2 * b + 3 * c + d + a;
    let f3 = 2 * c + 3 * d + a + b;
    let f4 = 2 * d + 3 * a + b + c;
    let s = a + b + c + d;
    lemma_zero_combination(1, f1, 1, f2, p);
    lemma_zero_combination(1, f3, 1, f4, p);
    lemma_zero_combination(1, f1 + f2, 1, f3 + f4, p);
    assert((7 * s) % p == 0);
    lemma_zero_factor(7, s, p);
    let e2 = b + 2 * c;
    let e3 = c + 2 * d;
    let e4 = d + 2 * a;
    lemma_zero_combination(1, f2, -1, s, p);
    assert(e2 % p == 0);
    lemma_zero_combination(1, f3, -1, s, p);
    assert(e3 % p == 0);
    lemma_zero_combination(1, f4, -1, s, p);
    assert(e4 % p == 0);
    lemma_zero_combination(1, e2, -1, e3, p);
    lemma_zero_combination(3, e4, -1, s, p);
    lemma_zero_combination(1, e2 - e3, 1, 3 * e4 - s, p);
    assert((5 * a) % p == 0);
    lemma_zero_factor(5, a, p);
}

/// The four products that the element `i` and its neighbours enter.
proof fn lemma_aes_mix_at(x: Seq<int>, i: int)
    requires
        0 <= i < x.len(),
        x.len() % 4 == 0,
    ensures
        ({
            let b = 4 * (i / 4);
            let i1 = b + (i + 1) % 4;
            let i2 = b + (i + 2) % 4;
            let i3 = b + (i + 3) % 4;
            &&& 0 <= i1 < x.len() && 0 <= i2 < x.len() && 0 <= i3 < x.len()
            &&& aes_mix(x)[i] == 2 * x[i] + 3 * x[i1] + x[i2] + x[i3]
            &&& aes_mix(x)[i1] == 2 * x[i1] + 3 * x[i2] + x[i3] + x[i]
            &&& aes_mix(x)[i2] == 2 * x[i2] + 3 * x[i3] + x[i] + x[i1]
            &&& aes_mix(x)[i3] == 2 * x[i3] + 3 * x[i] + x[i1] + x[i2]
        }),
{
    let b = 4 * (i / 4);
    if i % 4 == 0 {
        assert(i == b);
    } else if i % 4 == 1 {
        assert(i == b + 1);
    } else if i % 4 == 2 {
        assert(i == b + 2);
    } else {
        assert(i == b + 3);
    }
}

proof fn lemma_aes_mix_injective(x: Seq<int>, y: Seq<int>, p: int)
    requires
        is_prime(p),
        p > 7,
        x.len() == y.len(),
        x.len() % 4 == 0,
        all_congruent(aes_mix(x), aes_mix(y), p),
    ensures
        all_congruent(x, y, p),
{
    assert forall|i: int| 0 <= i < x.len() implies congruent(#[trigger] x[i], y[i], p) by {
        let b = 4 * (i / 4);
        let i1 = b + (i + 1) % 4;
        let i2 = b + (i + 2) % 4;
        let i3 = b + (i + 3) % 4;
        assert(congruent(aes_mix(x)[i], aes_mix(y)[i], p));
        assert(congruent(aes_mix(x)[i1], aes_mix(y)[i1], p));
        assert(congruent(aes_mix(x)[i2], aes_mix(y)[i2], p));
        assert(congruent(aes_mix(x)[i3], aes_mix(y)[i3], p));
        lemma_aes_mix_at(x, i);
        lemma_aes_mix_at(y, i);
        lemma_mod_equivalence(aes_mix(x)[i], aes_mix(y)[i], p);
        lemma_mod_equivalence(aes_mix(x)[i1], aes_mix(y)[i1], p);
        lemma_mod_equivalence(aes_mix(x)[i2], aes_mix(y)[i2], p);
        lemma_mod_equivalence(aes_mix(x)[i3], aes_mix(y)[i3], p);
        lemma_aes_kernel(x[i] - y[i], x[i1] - y[i1], x[i2] - y[i2], x[i3] - y[i3], p);
        lemma_mod_equivalence(x[i], y[i], p);
    }
}

/// `t` is the difference of two whole column sums. If each summand differs by `-t`, then so do
/// the column sums, by `-m * t`.
proof fn lemma_column_sum_difference(x: Seq<int>, y: Seq<int>, j: int, m: nat, t: int, p: int)
    requires
        p > 0,
        x.len() == y.len(),
        0 <= j < 4,
        4 * m <= x.len(),
        forall|i: int|
            0 <= i < x.len() && i % 4 == j ==> (#[trigger] x[i] - y[i] + t) % p == 0,
    ensures
        (column_sum(x, j, m) - column_sum(y, j, m) + m * t) % p == 0,
    decreases m,
{
    if m == 0 {
        lemma_small_mod(0, p as nat);
        assert(m * t == 0) by (nonlinear_arith)
            requires
                m == 0,
        ;
    } else {
        let m1 = (m - 1) as nat;
        lemma_column_sum_difference(x, y, j, m1, t, p);
        let i = 4 * m1 + j;
        assert((x[i] - y[i] + t) % p == 0);
        lemma_zero_combination(
            1,
            column_sum(x, j, m1) - column_sum(y, j, m1) + m1 * t,
            1,
            x[i] - y[i] + t,
            p,
        );
        assert(m * t == m1 * t + t) by (nonlinear_arith)
            requires
                m == m1 + 1,
        ;
    }
}

proof fn lemma_add_column_sums_injective(x: Seq<int>, y: Seq<int>, p: int)
    requires
        is_prime(p),
        p > 7,
        x.len() == y.len(),
        x.len() == 16 || x.len() == 24,
        all_congruent(add_column_sums(x), add_column_sums(y), p),
    ensures
        all_congruent(x, y, p),
{
    let n = x.len() / 4;
    assert forall|i: int| 0 <= i < x.len() implies congruent(#[trigger] x[i], y[i], p) by {
        let j = i % 4;
        let t = column_sum(x, j, n) - column_sum(y, j, n);
        assert forall|l: int| 0 <= l < x.len() && l % 4 == j implies (#[trigger] x[l] - y[l] + t)
            % p == 0 by {
            assert(congruent(add_column_sums(x)[l], add_column_sums(y)[l], p));
            lemma_mod_equivalence(add_column_sums(x)[l], add_column_sums(y)[l], p);
        }
        lemma_column_sum_difference(x, y, j, n, t, p);
        assert(t + n * t == (n + 1) * t) by (nonlinear_arith);
        lemma_zero_factor(n as int + 1, t, p);
        assert((x[i] - y[i] + t) % p == 0);
        lemma_zero_combination(1, x[i] - y[i] + t, -1, t, p);
        lemma_mod_equivalence(x[i], y[i], p);
    }
}

/// The external linear layer is invertible modulo a prime above 7.
pub proof fn lemma_external_layer_injective(x: Seq<int>, y: Seq<int>, p: int)
    requires
        is_prime(p),
        p > 7,
        x.len() == y.len(),
        x.len() == 16 || x.len() == 24,
        all_congruent(external_layer(x), external_layer(y), p),
    ensures
        all_congruent(x, y, p),
{
    lemma_add_column_sums_injective(aes_mix(x), aes_mix(y), p);
    lemma_aes_mix_injective(x, y, p);
}

proof fn lemma_monty_reduce_injective(x: int, y: int, p: int)
    requires
        is_prime(p),
        p > 2,
        monty_reduce(x, p) == monty_reduce(y, p),
    ensures
        congruent(x, y, p),
{
    lemma_odd_prime(p);
    lemma_monty_reduce_unique(x, 0, p);
    lemma_monty_reduce_unique(y, 0, p);
}

impl FieldModel {
    proof fn lemma_sbox_injective(self, x: int, y: int)
        requires
            self.is_field(),
            x >= 0,
            y >= 0,
            self.sbox(x) == self.sbox(y) || self.internal_sbox(x) == self.internal_sbox(y),
        ensures
            congruent(x, y, self.prime),
    {
        let f = if self.sbox(x) == self.sbox(y) {
            self.factor
        } else {
            self.internal_factor
        };
        lemma_prime_cancel(f, pow(x, self.degree), pow(y, self.degree), self.prime);
        lemma_power_injective(x as nat, y as nat, self.degree, self.prime);
    }

    proof fn lemma_reduce_all_injective(self, x: Seq<int>, y: Seq<int>)
        requires
            self.is_field(),
            self.reduce_all(x) == self.reduce_all(y),
        ensures
            all_congruent(x, y, self.prime),
    {
        assert(self.reduce_all(x).len() == x.len());
        assert(self.reduce_all(y).len() == y.len());
        assert forall|i: int| 0 <= i < x.len() implies congruent(
            #[trigger] x[i],
            y[i],
            self.prime,
        ) by {
            assert(self.reduce_all(x)[i] == monty_reduce(x[i], self.prime));
            assert(self.reduce_all(y)[i] == monty_reduce(y[i], self.prime));
            lemma_monty_reduce_injective(x[i], y[i], self.prime);
        }
    }

    proof fn lemma_constants_and_sbox_injective(
        self,
        constants: Seq<int>,
        x: Seq<int>,
        y: Seq<int>,
    )
        requires
            self.is_field(),
            x.len() == y.len(),
            self.constants_and_sbox(constants, x) == self.constants_and_sbox(constants, y),
        ensures
            all_congruent(x, y, self.prime),
    {
        let p = self.prime;
        assert forall|i: int| 0 <= i < x.len() implies congruent(#[trigger] x[i], y[i], p) by {
            assert(self.constants_and_sbox(constants, x)[i] == self.constants_and_sbox(
                constants,
                y,
            )[i]);
            let u = monty_reduce(x[i] + constants[i], p);
            let v = monty_reduce(y[i] + constants[i], p);
            assert(self.constants_and_sbox(constants, x)[i] == self.sbox(u));
            assert(self.constants_and_sbox(constants, y)[i] == self.sbox(v));
            lemma_odd_prime(p);
            lemma_monty_reduce_unique(x[i] + constants[i], 0, p);
            lemma_monty_reduce_unique(y[i] + constants[i], 0, p);
            self.lemma_sbox_injective(u, v);
            lemma_small_mod(u as nat, p as nat);
            lemma_small_mod(v as nat, p as nat);
            lemma_monty_reduce_injective(x[i] + constants[i], y[i] + constants[i], p);
            lemma_congruent_add(
                x[i] + constants[i],
                y[i] + constants[i],
                -constants[i],
                -constants[i],
                p,
            );
        }
    }

    /// Congruent results of an s-box layer are equal, since they are canonical.
    proof fn lemma_sbox_layer_canonical(self, constants: Seq<int>, x: Seq<int>, y: Seq<int>)
        requires
            self.prime > 0,
            all_congruent(
                self.constants_and_sbox(constants, x),
                self.constants_and_sbox(constants, y),
                self.prime,
            ),
        ensures
            self.constants_and_sbox(constants, x) == self.constants_and_sbox(constants, y),
    {
        let u = self.constants_and_sbox(constants, x);
        let v = self.constants_and_sbox(constants, y);
        assert forall|i: int| 0 <= i < u.len() implies u[i] == v[i] by {
            assert(congruent(u[i], v[i], self.prime));
            lemma_mod_bound(
                self.factor * pow(monty_reduce(x[i] + constants[i], self.prime), self.degree),
                self.prime,
            );
            lemma_mod_bound(
                self.factor * pow(monty_reduce(y[i] + constants[i], self.prime), self.degree),
                self.prime,
            );
            lemma_small_mod(u[i] as nat, self.prime as nat);
            lemma_small_mod(v[i] as nat, self.prime as nat);
        }
        assert(u =~= v);
    }

    proof fn lemma_external_rounds_injective(
        self,
        constants: Seq<Seq<int>>,
        x: Seq<int>,
        y: Seq<int>,
    )
        requires
            self.is_field(),
            x.len() == y.len(),
            x.len() == 16 || x.len() == 24,
            all_congruent(
                self.external_rounds(constants, x),
                self.external_rounds(constants, y),
                self.prime,
            ),
        ensures
            all_congruent(x, y, self.prime),
        decreases constants.len(),
    {
        if constants.len() > 0 {
            let rest = constants.drop_last();
            let u = self.external_rounds(rest, x);
            let v = self.external_rounds(rest, y);
            self.lemma_external_rounds_len(rest, x);
            self.lemma_external_rounds_len(rest, y);
            self.lemma_sbox_layer_canonical(
                constants.last(),
                external_layer(u),
                external_layer(v),
            );
            self.lemma_constants_and_sbox_injective(
                constants.last(),
                external_layer(u),
                external_layer(v),
            );
            lemma_external_layer_injective(u, v, self.prime);
            self.lemma_external_rounds_injective(rest, x, y);
        }
    }

    /// The external rounds keep the number of elements.
    pub proof fn lemma_external_rounds_len(self, constants: Seq<Seq<int>>, x: Seq<int>)
        ensures
            self.external_rounds(constants, x).len() == x.len(),
        decreases constants.len(),
    {
        if constants.len() > 0 {
            self.lemma_external_rounds_len(constants.drop_last(), x);
        }
    }

    /// The internal rounds keep the number of elements.
    pub proof fn lemma_internal_rounds_len(
        self,
        shifts: Seq<int>,
        constants: Seq<u32>,
        x: Seq<int>,
    )
        requires
            x.len() > 0,
        ensures
            self.internal_rounds(shifts, constants, x).len() == x.len(),
        decreases constants.len(),
    {
        if constants.len() > 0 {
            self.lemma_internal_rounds_len(shifts, constants.drop_last(), x);
        }
    }

    proof fn lemma_internal_round_injective(
        self,
        shifts: Seq<int>,
        constant: int,
        x: Seq<int>,
        y: Seq<int>,
    )
        requires
            self.is_field(),
            x.len() == y.len(),
            x.len() > 0,
            constant >= 0,
            canonical(x, self.prime),
            canonical(y, self.prime),
            internal_layer_invertible(shifts, x.len(), self.prime),
            self.internal_round(shifts, constant, x) == self.internal_round(shifts, constant, y),
        ensures
            x == y,
    {
        let p = self.prime;
        let u = x.update(0, self.internal_sbox(x[0] + constant));
        let v = y.update(0, self.internal_sbox(y[0] + constant));
        self.lemma_reduce_all_injective(internal_layer(shifts, u), internal_layer(shifts, v));
        assert(all_congruent(u, v, p));
        assert forall|i: int| 0 <= i < x.len() implies x[i] == y[i] by {
            assert(congruent(u[i], v[i], p));
            if i == 0 {
                lemma_mod_bound(
                    self.internal_factor * pow(x[0] + constant, self.degree),
                    p,
                );
                lemma_mod_bound(
                    self.internal_factor * pow(y[0] + constant, self.degree),
                    p,
                );
                lemma_small_mod(u[0] as nat, p as nat);
                lemma_small_mod(v[0] as nat, p as nat);
                self.lemma_sbox_injective(x[0] + constant, y[0] + constant);
                lemma_congruent_add(x[0] + constant, y[0] + constant, -constant, -constant, p);
            }
            lemma_small_mod(x[i] as nat, p as nat);
            lemma_small_mod(y[i] as nat, p as nat);
        }
        assert(x =~= y);
    }

    /// Reductions are canonical.
    proof fn lemma_reduce_all_canonical(self, x: Seq<int>)
        requires
            self.prime > 0,
        ensures
            canonical(self.reduce_all(x), self.prime),
    {
    }

    proof fn lemma_internal_rounds_injective(
        self,
        shifts: Seq<int>,
        constants: Seq<u32>,
        x: Seq<int>,
        y: Seq<int>,
    )
        requires
            self.is_field(),
            x.len() == y.len(),
            x.len() > 0,
            canonical(x, self.prime),
            canonical(y, self.prime),
            internal_layer_invertible(shifts, x.len(), self.prime),
            all_congruent(
                self.internal_rounds(shifts, constants, x),
                self.internal_rounds(shifts, constants, y),
                self.prime,
            ),
        ensures
            x == y,
        decreases constants.len(),
    {
        let p = self.prime;
        let u = self.internal_rounds(shifts, constants, x);
        let v = self.internal_rounds(shifts, constants, y);
        self.lemma_internal_rounds_len(shifts, constants, x);
        self.lemma_internal_rounds_len(shifts, constants, y);
        self.lemma_internal_rounds_canonical(shifts, constants, x);
        self.lemma_internal_rounds_canonical(shifts, constants, y);
        assert forall|i: int| 0 <= i < u.len() implies u[i] == v[i] by {
            assert(congruent(u[i], v[i], p));
            lemma_small_mod(u[i] as nat, p as nat);
            lemma_small_mod(v[i] as nat, p as nat);
        }
        assert(u =~= v);
        if constants.len() > 0 {
            let rest = constants.drop_last();
            let a = self.internal_rounds(shifts, rest, x);
            let b = self.internal_rounds(shifts, rest, y);
            self.lemma_internal_rounds_len(shifts, rest, x);
            self.lemma_internal_rounds_len(shifts, rest, y);
            self.lemma_internal_rounds_canonical(shifts, rest, x);
            self.lemma_internal_rounds_canonical(shifts, rest, y);
            self.lemma_internal_round_injective(shifts, constants.last() as int, a, b);
            self.lemma_internal_rounds_injective(shifts, rest, x, y);
        }
    }

    proof fn lemma_internal_rounds_canonical(
        self,
        shifts: Seq<int>,
        constants: Seq<u32>,
        x: Seq<int>,
    )
        requires
            self.prime > 0,
            canonical(x, self.prime),
        ensures
            canonical(self.internal_rounds(shifts, constants, x), self.prime),
    {
    }

    /// The permutation is one to one on canonical elements.
    pub proof fn lemma_poseidon2_injective(
        self,
        shifts: Seq<int>,
        initial_constants: Seq<Seq<int>>,
        internal_constants: Seq<u32>,
        final_constants: Seq<Seq<int>>,
        x: Seq<int>,
        y: Seq<int>,
    )
        requires
            self.is_field(),
            x.len() == y.len(),
            x.len() == 16 || x.len() == 24,
            canonical(x, self.prime),
            canonical(y, self.prime),
            internal_layer_invertible(shifts, x.len(), self.prime),
            self.poseidon2(shifts, initial_constants, internal_constants, final_constants, x)
                == self.poseidon2(
                shifts,
                initial_constants,
                internal_constants,
                final_constants,
                y,
            ),
        ensures
            x == y,
    {
        let p = self.prime;
        let x1 = self.initial_rounds(initial_constants, x);
        let y1 = self.initial_rounds(initial_constants, y);
        let x2 = self.internal_rounds(shifts, internal_constants, x1);
        let y2 = self.internal_rounds(shifts, internal_constants, y1);
        let x3 = self.constants_and_sbox(final_constants[0], x2);
        let y3 = self.constants_and_sbox(final_constants[0], y2);
        let rest = final_constants.skip(1);
        self.lemma_external_rounds_len(initial_constants, x);
        self.lemma_external_rounds_len(initial_constants, y);
        self.lemma_internal_rounds_len(shifts, internal_constants, x1);
        self.lemma_internal_rounds_len(shifts, internal_constants, y1);
        self.lemma_external_rounds_len(rest, x3);
        self.lemma_external_rounds_len(rest, y3);

        self.lemma_reduce_all_injective(
            self.final_rounds(final_constants, x2),
            self.final_rounds(final_constants, y2),
        );
        lemma_external_layer_injective(
            self.external_rounds(rest, x3),
            self.external_rounds(rest, y3),
            p,
        );
        self.lemma_external_rounds_injective(rest, x3, y3);
        self.lemma_sbox_layer_canonical(final_constants[0], x2, y2);
        self.lemma_constants_and_sbox_injective(final_constants[0], x2, y2);
        self.lemma_internal_rounds_injective(shifts, internal_constants, x1, y1);
        self.lemma_reduce_all_injective(
            external_layer(self.external_rounds(initial_constants, x)),
            external_layer(self.external_rounds(initial_constants, y)),
        );
        lemma_external_layer_injective(
            self.external_rounds(initial_constants, x),
            self.external_rounds(initial_constants, y),
            p,
        );
        self.lemma_external_rounds_injective(initial_constants, x, y);
        assert forall|i: int| 0 <= i < x.len() implies x[i] == y[i] by {
            assert(congruent(x[i], y[i], p));
            lemma_small_mod(x[i] as nat, p as nat);
            lemma_small_mod(y[i] as nat, p as nat);
        }
        assert(x =~= y);
    }
}

/// The sequences of `n` canonical elements.
pub open spec fn canonical_set(n: nat, p: int) -> Set<Seq<int>> {
    Set::new(|x: Seq<int>| x.len() == n && canonical(x, p))
}

proof fn lemma_canonical_set_finite(n: nat, p: int)
    requires
        p > 0,
    ensures
        canonical_set(n, p).finite(),
    decreases n,
{
    if n == 0 {
        assert(canonical_set(0, p) =~= set![Seq::<int>::empty()]) by {
            assert forall|x: Seq<int>| canonical_set(0, p).contains(x) implies x == Seq::<
                int,
            >::empty() by {
                assert(x =~= Seq::<int>::empty());
            }
        }
    } else {
        let shorter = canonical_set((n - 1) as nat, p);
        let extend = |v: int| shorter.map(|x: Seq<int>| x.push(v));
        let parts = set_int_range(0, p).map(extend);
        lemma_canonical_set_finite((n - 1) as nat, p);
        lemma_int_range(0, p);
        set_int_range(0, p).lemma_map_finite(extend);
        assert forall|part: Set<Seq<int>>|
            parts.contains(part) implies #[trigger] part.finite() by {
            let v = choose|v: int| set_int_range(0, p).contains(v) && part == extend(v);
            shorter.lemma_map_finite(|x: Seq<int>| x.push(v));
        }
        parts.lemma_flatten_finite();
        let all = parts.flatten();
        assert forall|x: Seq<int>| canonical_set(n, p).contains(x) implies #[trigger] all.contains(
            x,
        ) by {
            let v = x.last();
            let init = x.drop_last();
            assert(init.push(v) =~= x);
            assert forall|i: int| 0 <= i < init.len() implies 0 <= #[trigger] init[i] < p by {
                assert(init[i] == x[i]);
            }
            assert(0 <= x[n - 1] < p);
            assert(shorter.contains(init));
            assert(set_int_range(0, p).contains(v));
            assert(extend(v).contains(x));
            assert(parts.contains(extend(v)));
        }
        lemma_set_subset_finite(all, canonical_set(n, p));
    }
}

/// A function from the canonical sequences to themselves that is one to one is onto.
proof fn lemma_onto(n: nat, p: int, f: spec_fn(Seq<int>) -> Seq<int>, z: Seq<int>) -> (x: Seq<int>)
    requires
        p > 0,
        forall|x: Seq<int>|
            canonical_set(n, p).contains(x) ==> canonical_set(n, p).contains(#[trigger] f(x)),
        injective_on(f, canonical_set(n, p)),
        canonical_set(n, p).contains(z),
    ensures
        canonical_set(n, p).contains(x),
        f(x) == z,
{
    let s = canonical_set(n, p);
    lemma_canonical_set_finite(n, p);
    lemma_map_size(s, s.map(f), f);
    assert(s.map(f).subset_of(s));
    lemma_subset_equality(s.map(f), s);
    assert(s.map(f).contains(z));
    choose|x: Seq<int>| s.contains(x) && z == f(x)
}

impl FieldModel {
    /// The permutation gives canonical elements, as many as it is given.
    pub proof fn lemma_poseidon2_canonical(
        self,
        shifts: Seq<int>,
        initial_constants: Seq<Seq<int>>,
        internal_constants: Seq<u32>,
        final_constants: Seq<Seq<int>>,
        x: Seq<int>,
    )
        requires
            self.prime > 0,
            x.len() > 0,
        ensures
            self.poseidon2(
                shifts,
                initial_constants,
                internal_constants,
                final_constants,
                x,
            ).len() == x.len(),
            canonical(
                self.poseidon2(
                    shifts,
                    initial_constants,
                    internal_constants,
                    final_constants,
                    x,
                ),
                self.prime,
            ),
    {
        let x1 = self.initial_rounds(initial_constants, x);
        let x2 = self.internal_rounds(shifts, internal_constants, x1);
        self.lemma_external_rounds_len(initial_constants, x);
        self.lemma_internal_rounds_len(shifts, internal_constants, x1);
        self.lemma_external_rounds_len(
            final_constants.skip(1),
            self.constants_and_sbox(final_constants[0], x2),
        );
        self.lemma_reduce_all_canonical(self.final_rounds(final_constants, x2));
    }

    /// Every sequence of canonical elements is what the permutation makes of another one.
    pub proof fn lemma_poseidon2_onto(
        self,
        shifts: Seq<int>,
        initial_constants: Seq<Seq<int>>,
        internal_constants: Seq<u32>,
        final_constants: Seq<Seq<int>>,
        z: Seq<int>,
    ) -> (x: Seq<int>)
        requires
            self.is_field(),
            z.len() == 16 || z.len() == 24,
            canonical(z, self.prime),
            internal_layer_invertible(shifts, z.len(), self.prime),
        ensures
            x.len() == z.len(),
            canonical(x, self.prime),
            self.poseidon2(shifts, initial_constants, internal_constants, final_constants, x) == z,
    {
        let f = |x: Seq<int>|
            self.poseidon2(shifts, initial_constants, internal_constants, final_constants, x);
        let s = canonical_set(z.len(), self.prime);
        assert forall|x: Seq<int>| s.contains(x) implies s.contains(#[trigger] f(x)) by {
            self.lemma_poseidon2_canonical(
                shifts,
                initial_constants,
                internal_constants,
                final_constants,
                x,
            );
        }
        assert forall|x: Seq<int>, y: Seq<int>|
            s.contains(x) && s.contains(y) && #[trigger] f(x) == #[trigger] f(y) implies x == y by {
            self.lemma_poseidon2_injective(
                shifts,
                initial_constants,
                internal_constants,
                final_constants,
                x,
                y,
            );
        }
        lemma_onto(z.len(), self.prime, f, z)
    }
}

} // verus!
