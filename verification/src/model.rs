//! What the permutation is, on the elements of one instance.
use crate::field::{
    all_congruent, congruent, lemma_congruent_add, lemma_congruent_mul, lemma_congruent_pow,
    lemma_monty_reduce_congruent, monty_reduce,
};
use crate::number_theory::{coprime, is_prime};
use vstd::arithmetic::power::pow;
use vstd::arithmetic::power2::pow2;
use vstd::prelude::*;

verus! {

/// The elements of one instance.
pub type Instance = Seq<int>;

/// The instances of a tensor.
pub type Instances = Seq<Instance>;

/// Multiplies every four elements that stand together by the matrix
///
/// ```text
/// [ 2 3 1 1 ]
/// [ 1 2 3 1 ]
/// [ 1 1 2 3 ]
/// [ 3 1 1 2 ]
/// ```
pub open spec fn aes_mix(x: Seq<int>) -> Seq<int> {
    Seq::new(
        x.len(),
        |i: int|
            2 * x[i] + 3 * x[4 * (i / 4) + (i + 1) % 4] + x[4 * (i / 4) + (i + 2) % 4] + x[4 * (i
                / 4) + (i + 3) % 4],
    )
}

/// `x[j] + x[4 + j] + x[8 + j] + ...`, with `n` summands.
pub open spec fn column_sum(x: Seq<int>, j: int, n: nat) -> int
    decreases n,
{
    if n == 0 {
        0
    } else {
        column_sum(x, j, (n - 1) as nat) + x[4 * (n - 1) + j]
    }
}

/// Adds to each element the sum of the elements whose indices agree with its own modulo 4.
pub open spec fn add_column_sums(x: Seq<int>) -> Seq<int> {
    Seq::new(x.len(), |i: int| x[i] + column_sum(x, i % 4, x.len() / 4))
}

/// The external linear layer.
pub open spec fn external_layer(x: Seq<int>) -> Seq<int> {
    add_column_sums(aes_mix(x))
}

/// The sum of the first `n` elements.
pub open spec fn sum_first(x: Seq<int>, n: nat) -> int
    decreases n,
{
    if n == 0 {
        0
    } else {
        sum_first(x, (n - 1) as nat) + x[n - 1]
    }
}

/// The internal linear layer: the matrix of ones plus a diagonal matrix, which holds -2 in its
/// first place and powers of two in the others.
pub open spec fn internal_layer(shifts: Seq<int>, x: Seq<int>) -> Seq<int> {
    Seq::new(
        x.len(),
        |i: int|
            sum_first(x, x.len()) + if i == 0 {
                -2 * x[0]
            } else {
                x[i] * pow2(shifts[i] as nat)
            },
    )
}

/// The prime field and its s-box, as they act on the integers that stand for field elements.
pub struct FieldModel {
    /// The prime of the field.
    pub prime: int,
    /// The degree of the s-box.
    pub degree: nat,
    /// What the external s-box multiplies its power by: elements that are kept in Montgomery
    /// form carry a power of the radix, and the s-box accounts for it.
    pub factor: int,
    /// What the internal s-box multiplies its power by.
    pub internal_factor: int,
}

impl FieldModel {
    /// The field is a prime field with more than seven elements, and the s-boxes raise to a power
    /// that is coprime to the order of its group of units.
    pub open spec fn is_field(self) -> bool {
        &&& is_prime(self.prime)
        &&& self.prime > 7
        &&& coprime(self.degree as int, self.prime - 1)
        &&& self.factor % self.prime != 0
        &&& self.internal_factor % self.prime != 0
    }

    /// The s-box of the external rounds.
    pub open spec fn sbox(self, x: int) -> int {
        (self.factor * pow(x, self.degree)) % self.prime
    }

    /// The s-box of the internal rounds.
    pub open spec fn internal_sbox(self, x: int) -> int {
        (self.internal_factor * pow(x, self.degree)) % self.prime
    }

    /// The Montgomery reduction of every element.
    pub open spec fn reduce_all(self, x: Seq<int>) -> Seq<int> {
        Seq::new(x.len(), |i: int| monty_reduce(x[i], self.prime))
    }

    /// Adds the round constants, reduces, and applies the s-box to every element.
    pub open spec fn constants_and_sbox(self, constants: Seq<int>, x: Seq<int>) -> Seq<int> {
        Seq::new(x.len(), |i: int| self.sbox(monty_reduce(x[i] + constants[i], self.prime)))
    }

    /// An external round, which starts with its linear layer.
    pub open spec fn external_round(self, constants: Seq<int>, x: Seq<int>) -> Seq<int> {
        self.constants_and_sbox(constants, external_layer(x))
    }

    /// One external round for each element of `constants`.
    pub open spec fn external_rounds(self, constants: Seq<Seq<int>>, x: Seq<int>) -> Seq<int>
        decreases constants.len(),
    {
        if constants.len() == 0 {
            x
        } else {
            self.external_round(
                constants.last(),
                self.external_rounds(constants.drop_last(), x),
            )
        }
    }

    /// External rounds in the order of round constants, s-boxes, linear layer.
    pub open spec fn unrotated_rounds(self, constants: Seq<Seq<int>>, x: Seq<int>) -> Seq<int>
        decreases constants.len(),
    {
        if constants.len() == 0 {
            x
        } else {
            external_layer(
                self.constants_and_sbox(
                    constants.last(),
                    self.unrotated_rounds(constants.drop_last(), x),
                ),
            )
        }
    }

    /// The initial external rounds, closed by a linear layer and a reduction.
    pub open spec fn initial_rounds(self, constants: Seq<Seq<int>>, x: Seq<int>) -> Seq<int> {
        self.reduce_all(external_layer(self.external_rounds(constants, x)))
    }

    /// An internal round: the s-box on element 0, the internal linear layer, and a reduction.
    pub open spec fn internal_round(self, shifts: Seq<int>, constant: int, x: Seq<int>) -> Seq<
        int,
    > {
        self.reduce_all(
            internal_layer(shifts, x.update(0, self.internal_sbox(x[0] + constant))),
        )
    }

    /// One internal round for each element of `constants`.
    pub open spec fn internal_rounds(
        self,
        shifts: Seq<int>,
        constants: Seq<u32>,
        x: Seq<int>,
    ) -> Seq<int>
        decreases constants.len(),
    {
        if constants.len() == 0 {
            x
        } else {
            self.internal_round(
                shifts,
                constants.last() as int,
                self.internal_rounds(shifts, constants.drop_last(), x),
            )
        }
    }

    /// The final external rounds. The linear layer of the first one is left out, since it stands
    /// at the end of the initial rounds, and one linear layer is added at the end.
    pub open spec fn final_rounds(self, constants: Seq<Seq<int>>, x: Seq<int>) -> Seq<int> {
        external_layer(
            self.external_rounds(constants.skip(1), self.constants_and_sbox(constants[0], x)),
        )
    }

    /// The permutation.
    pub open spec fn poseidon2(
        self,
        shifts: Seq<int>,
        initial_constants: Seq<Seq<int>>,
        internal_constants: Seq<u32>,
        final_constants: Seq<Seq<int>>,
        x: Seq<int>,
    ) -> Seq<int> {
        let initial = self.initial_rounds(initial_constants, x);
        let internal = self.internal_rounds(shifts, internal_constants, initial);
        self.reduce_all(self.final_rounds(final_constants, internal))
    }
}

/// All elements lie in `[0, bound]`.
pub open spec fn all_at_most(x: Seq<int>, bound: int) -> bool {
    forall|i: int| 0 <= i < x.len() ==> 0 <= #[trigger] x[i] <= bound
}

proof fn lemma_column_sum_bounds(x: Seq<int>, j: int, n: nat, bound: int)
    requires
        all_at_most(x, bound),
        0 <= j < 4,
        4 * n <= x.len(),
    ensures
        0 <= column_sum(x, j, n) <= n * bound,
    decreases n,
{
    if n > 0 {
        lemma_column_sum_bounds(x, j, (n - 1) as nat, bound);
        assert(0 <= x[4 * (n - 1) + j] <= bound);
        assert((n - 1) * bound + bound == n * bound) by (nonlinear_arith);
    }
}

/// If the elements are at most `bound`, then the products with the matrix of [`aes_mix`] are at
/// most `7 * bound`.
pub proof fn lemma_aes_mix_bounds(x: Seq<int>, bound: int)
    requires
        all_at_most(x, bound),
        x.len() % 4 == 0,
    ensures
        all_at_most(aes_mix(x), 7 * bound),
{
    assert forall|i: int| 0 <= i < x.len() implies 0 <= #[trigger] aes_mix(x)[i] <= 7 * bound by {
        let b = 4 * (i / 4);
        assert(0 <= x[i] <= bound);
        assert(0 <= x[b + (i + 1) % 4] <= bound);
        assert(0 <= x[b + (i + 2) % 4] <= bound);
        assert(0 <= x[b + (i + 3) % 4] <= bound);
    }
}

/// If the elements are at most `bound`, then the results of [`add_column_sums`] are at most
/// `5 * bound` for 16 elements, and at most `7 * bound` for 24 elements.
pub proof fn lemma_add_column_sums_bounds(x: Seq<int>, bound: int)
    requires
        all_at_most(x, bound),
        x.len() == 16 || x.len() == 24,
    ensures
        x.len() == 16 ==> all_at_most(add_column_sums(x), 5 * bound),
        x.len() == 24 ==> all_at_most(add_column_sums(x), 7 * bound),
        forall|i: int|
            0 <= i < x.len() ==> 0 <= x[i] <= #[trigger] add_column_sums(x)[i] && 0 <= column_sum(
                x,
                i % 4,
                x.len() / 4,
            ) <= add_column_sums(x)[i],
{
    assert forall|i: int| 0 <= i < x.len() implies 0 <= x[i] <= #[trigger] add_column_sums(x)[i]
        <= (x.len() / 4 + 1) * bound && 0 <= column_sum(x, i % 4, x.len() / 4) <= add_column_sums(
        x,
    )[i] by {
        lemma_column_sum_bounds(x, i % 4, x.len() / 4, bound);
        assert(0 <= x[i] <= bound);
    }
}

proof fn lemma_column_sum_congruent(x: Seq<int>, y: Seq<int>, j: int, n: nat, p: int)
    requires
        p > 0,
        all_congruent(x, y, p),
        0 <= j < 4,
        4 * n <= x.len(),
    ensures
        congruent(column_sum(x, j, n), column_sum(y, j, n), p),
    decreases n,
{
    if n > 0 {
        lemma_column_sum_congruent(x, y, j, (n - 1) as nat, p);
        let i = 4 * (n - 1) + j;
        assert(congruent(x[i], y[i], p));
        lemma_congruent_add(
            column_sum(x, j, (n - 1) as nat),
            column_sum(y, j, (n - 1) as nat),
            x[i],
            y[i],
            p,
        );
    }
}

/// The external linear layer acts on residues.
pub proof fn lemma_external_layer_congruent(x: Seq<int>, y: Seq<int>, p: int)
    requires
        p > 0,
        all_congruent(x, y, p),
        x.len() % 4 == 0,
    ensures
        all_congruent(external_layer(x), external_layer(y), p),
{
    let u = aes_mix(x);
    let v = aes_mix(y);
    assert forall|i: int| 0 <= i < x.len() implies congruent(#[trigger] u[i], v[i], p) by {
        let b = 4 * (i / 4);
        let i1 = b + (i + 1) % 4;
        let i2 = b + (i + 2) % 4;
        let i3 = b + (i + 3) % 4;
        assert(congruent(x[i], y[i], p));
        assert(congruent(x[i1], y[i1], p));
        assert(congruent(x[i2], y[i2], p));
        assert(congruent(x[i3], y[i3], p));
        lemma_congruent_mul(2, 2, x[i], y[i], p);
        lemma_congruent_mul(3, 3, x[i1], y[i1], p);
        lemma_congruent_add(2 * x[i], 2 * y[i], 3 * x[i1], 3 * y[i1], p);
        lemma_congruent_add(2 * x[i] + 3 * x[i1], 2 * y[i] + 3 * y[i1], x[i2], y[i2], p);
        lemma_congruent_add(
            2 * x[i] + 3 * x[i1] + x[i2],
            2 * y[i] + 3 * y[i1] + y[i2],
            x[i3],
            y[i3],
            p,
        );
    }
    assert forall|i: int| 0 <= i < x.len() implies congruent(
        #[trigger] external_layer(x)[i],
        external_layer(y)[i],
        p,
    ) by {
        let n = x.len() / 4;
        lemma_column_sum_congruent(u, v, i % 4, n, p);
        assert(congruent(u[i], v[i], p));
        lemma_congruent_add(u[i], v[i], column_sum(u, i % 4, n), column_sum(v, i % 4, n), p);
    }
}

proof fn lemma_sum_first_congruent(x: Seq<int>, y: Seq<int>, n: nat, p: int)
    requires
        p > 0,
        all_congruent(x, y, p),
        n <= x.len(),
    ensures
        congruent(sum_first(x, n), sum_first(y, n), p),
    decreases n,
{
    if n > 0 {
        lemma_sum_first_congruent(x, y, (n - 1) as nat, p);
        assert(congruent(x[n - 1], y[n - 1], p));
        lemma_congruent_add(
            sum_first(x, (n - 1) as nat),
            sum_first(y, (n - 1) as nat),
            x[n - 1],
            y[n - 1],
            p,
        );
    }
}

/// The internal linear layer acts on residues.
pub proof fn lemma_internal_layer_congruent(shifts: Seq<int>, x: Seq<int>, y: Seq<int>, p: int)
    requires
        p > 0,
        all_congruent(x, y, p),
    ensures
        all_congruent(internal_layer(shifts, x), internal_layer(shifts, y), p),
{
    lemma_sum_first_congruent(x, y, x.len(), p);
    assert forall|i: int| 0 <= i < x.len() implies congruent(
        #[trigger] internal_layer(shifts, x)[i],
        internal_layer(shifts, y)[i],
        p,
    ) by {
        assert(congruent(x[i], y[i], p));
        let d = if i == 0 {
            -2
        } else {
            pow2(shifts[i] as nat) as int
        };
        lemma_congruent_mul(x[i], y[i], d, d, p);
        lemma_congruent_add(
            sum_first(x, x.len()),
            sum_first(y, x.len()),
            x[i] * d,
            y[i] * d,
            p,
        );
    }
}

impl FieldModel {
    /// Sequences of the same residues have the same reductions.
    pub proof fn lemma_reduce_all_congruent(self, x: Seq<int>, y: Seq<int>)
        requires
            self.prime > 0,
            all_congruent(x, y, self.prime),
        ensures
            self.reduce_all(x) == self.reduce_all(y),
    {
        assert forall|i: int| 0 <= i < x.len() implies #[trigger] self.reduce_all(x)[i]
            == self.reduce_all(y)[i] by {
            assert(congruent(x[i], y[i], self.prime));
            lemma_monty_reduce_congruent(x[i], y[i], self.prime);
        }
        assert(self.reduce_all(x) =~= self.reduce_all(y));
    }

    /// The step from round constants to s-boxes depends on residues alone.
    pub proof fn lemma_constants_and_sbox_congruent(
        self,
        constants: Seq<int>,
        x: Seq<int>,
        y: Seq<int>,
    )
        requires
            self.prime > 0,
            all_congruent(x, y, self.prime),
        ensures
            self.constants_and_sbox(constants, x) == self.constants_and_sbox(constants, y),
    {
        assert forall|i: int| 0 <= i < x.len() implies #[trigger] self.constants_and_sbox(
            constants,
            x,
        )[i] == self.constants_and_sbox(constants, y)[i] by {
            assert(congruent(x[i], y[i], self.prime));
            lemma_congruent_add(x[i], y[i], constants[i], constants[i], self.prime);
            lemma_monty_reduce_congruent(x[i] + constants[i], y[i] + constants[i], self.prime);
        }
        assert(self.constants_and_sbox(constants, x) =~= self.constants_and_sbox(constants, y));
    }

    /// An external round depends on the residues of its elements alone.
    pub proof fn lemma_external_round_congruent(
        self,
        constants: Seq<int>,
        x: Seq<int>,
        y: Seq<int>,
    )
        requires
            self.prime > 0,
            all_congruent(x, y, self.prime),
            x.len() % 4 == 0,
        ensures
            self.external_round(constants, x) == self.external_round(constants, y),
    {
        lemma_external_layer_congruent(x, y, self.prime);
        self.lemma_constants_and_sbox_congruent(constants, external_layer(x), external_layer(y));
    }

    /// External rounds act on residues.
    pub proof fn lemma_external_rounds_congruent(
        self,
        constants: Seq<Seq<int>>,
        x: Seq<int>,
        y: Seq<int>,
    )
        requires
            self.prime > 0,
            all_congruent(x, y, self.prime),
            x.len() % 4 == 0,
        ensures
            all_congruent(
                self.external_rounds(constants, x),
                self.external_rounds(constants, y),
                self.prime,
            ),
            self.external_rounds(constants, x).len() == x.len(),
        decreases constants.len(),
    {
        if constants.len() > 0 {
            let rest = constants.drop_last();
            self.lemma_external_rounds_congruent(rest, x, y);
            self.lemma_external_round_congruent(
                constants.last(),
                self.external_rounds(rest, x),
                self.external_rounds(rest, y),
            );
        }
    }

    /// The initial external rounds depend on the residues of their elements alone.
    pub proof fn lemma_initial_rounds_congruent(
        self,
        constants: Seq<Seq<int>>,
        x: Seq<int>,
        y: Seq<int>,
    )
        requires
            self.prime > 0,
            all_congruent(x, y, self.prime),
            x.len() % 4 == 0,
        ensures
            self.initial_rounds(constants, x) == self.initial_rounds(constants, y),
    {
        let u = self.external_rounds(constants, x);
        let v = self.external_rounds(constants, y);
        self.lemma_external_rounds_congruent(constants, x, y);
        lemma_external_layer_congruent(u, v, self.prime);
        self.lemma_reduce_all_congruent(external_layer(u), external_layer(v));
    }

    /// The final external rounds depend on the residues of their elements alone.
    pub proof fn lemma_final_rounds_congruent(
        self,
        constants: Seq<Seq<int>>,
        x: Seq<int>,
        y: Seq<int>,
    )
        requires
            self.prime > 0,
            all_congruent(x, y, self.prime),
            x.len() % 4 == 0,
        ensures
            self.final_rounds(constants, x) == self.final_rounds(constants, y),
    {
        self.lemma_constants_and_sbox_congruent(constants[0], x, y);
    }

    /// The s-box of the internal rounds depends on the residue alone.
    pub proof fn lemma_internal_sbox_congruent(self, x: int, y: int)
        requires
            self.prime > 0,
            congruent(x, y, self.prime),
        ensures
            self.internal_sbox(x) == self.internal_sbox(y),
    {
        lemma_congruent_pow(x, y, self.degree, self.prime);
        lemma_congruent_mul(
            self.internal_factor,
            self.internal_factor,
            pow(x, self.degree),
            pow(y, self.degree),
            self.prime,
        );
    }

    /// An internal round depends on the residues of its elements alone.
    pub proof fn lemma_internal_round_congruent(
        self,
        shifts: Seq<int>,
        constant: int,
        x: Seq<int>,
        y: Seq<int>,
    )
        requires
            self.prime > 0,
            all_congruent(x, y, self.prime),
            x.len() > 0,
        ensures
            self.internal_round(shifts, constant, x) == self.internal_round(shifts, constant, y),
    {
        assert(congruent(x[0], y[0], self.prime));
        lemma_congruent_add(x[0], y[0], constant, constant, self.prime);
        self.lemma_internal_sbox_congruent(x[0] + constant, y[0] + constant);
        let u = x.update(0, self.internal_sbox(x[0] + constant));
        let v = y.update(0, self.internal_sbox(y[0] + constant));
        assert forall|i: int| 0 <= i < u.len() implies congruent(
            #[trigger] u[i],
            v[i],
            self.prime,
        ) by {
            if i > 0 {
                assert(congruent(x[i], y[i], self.prime));
            }
        }
        lemma_internal_layer_congruent(shifts, u, v, self.prime);
        self.lemma_reduce_all_congruent(internal_layer(shifts, u), internal_layer(shifts, v));
    }

    /// Internal rounds act on residues.
    pub proof fn lemma_internal_rounds_congruent(
        self,
        shifts: Seq<int>,
        constants: Seq<u32>,
        x: Seq<int>,
        y: Seq<int>,
    )
        requires
            self.prime > 0,
            all_congruent(x, y, self.prime),
            x.len() > 0,
        ensures
            all_congruent(
                self.internal_rounds(shifts, constants, x),
                self.internal_rounds(shifts, constants, y),
                self.prime,
            ),
            self.internal_rounds(shifts, constants, x).len() == x.len(),
        decreases constants.len(),
    {
        if constants.len() > 0 {
            let rest = constants.drop_last();
            self.lemma_internal_rounds_congruent(shifts, rest, x, y);
            self.lemma_internal_round_congruent(
                shifts,
                constants.last() as int,
                self.internal_rounds(shifts, rest, x),
                self.internal_rounds(shifts, rest, y),
            );
        }
    }
}

} // verus!
