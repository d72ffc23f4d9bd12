//! The rounds and the permutation, written out.
//!
//! Every law relates what a round is given and what it returns, or two calls that differ in one
//! round constant. They say how by the residues modulo the field's prime, with the matrices, the
//! power and the division by `2^32` spelled out.
use crate::external::instance_constants;
use crate::field::{
    all_congruent, congruent, lemma_congruent_add, lemma_congruent_mul, lemma_congruent_pow,
    lemma_monty_reduce_unique, monty_reduce, radix,
};
use crate::helpers::Poseidon2AVX2Methods;
use crate::layout::{instances, supported, width};
use crate::model::{external_layer, internal_layer, lemma_external_layer_congruent, FieldModel};
use crate::number_theory::lemma_odd_prime;
use crate::permutation::{sampled_constants, Poseidon2AVX2};
use crate::tensor::Packed64bitM31Tensor;
use crate::written_out::{law_internal_layer, law_monty_reduce, law_sbox};
use vstd::arithmetic::div_mod::{lemma_mod_equivalence, lemma_mod_twice, lemma_small_mod};
use vstd::arithmetic::power::pow;
use vstd::arithmetic::power2::pow2;
use vstd::prelude::*;

verus! {

/// The round constants, the division by `2^32` and the s-boxes of an external round: element `i`
/// of the result is the power of `m`, where `m` times `2^32` is the element with its constant.
pub proof fn law_constants_and_sbox(
    field: FieldModel,
    constants: Seq<int>,
    x: Seq<int>,
    m: int,
    i: int,
)
    requires
        field.prime > 1,
        field.prime % 2 == 1,
        0 <= i < x.len(),
        (m * 0x1_0000_0000 - (x[i] + constants[i])) % field.prime == 0,
    ensures
        field.constants_and_sbox(constants, x).len() == x.len(),
        0 <= field.constants_and_sbox(constants, x)[i] < field.prime,
        (field.constants_and_sbox(constants, x)[i] - field.factor * pow(m, field.degree))
            % field.prime == 0,
{
    let p = field.prime;
    let v = x[i] + constants[i];
    let n = monty_reduce(v, p);
    lemma_mod_equivalence(m * 0x1_0000_0000, v, p);
    lemma_monty_reduce_unique(v, m, p);
    lemma_monty_reduce_unique(v, n, p);
    lemma_mod_twice(v, p);
    assert(congruent(n, m, p)) by {
        assert(n % p == n) by {
            lemma_small_mod(n as nat, p as nat);
        }
    }
    law_sbox(field, n);
    lemma_congruent_pow(n, m, field.degree, p);
    lemma_congruent_mul(
        field.factor,
        field.factor,
        pow(n, field.degree),
        pow(m, field.degree),
        p,
    );
    lemma_mod_equivalence(field.sbox(n), field.factor * pow(n, field.degree), p);
    lemma_mod_equivalence(field.sbox(n), field.factor * pow(m, field.degree), p);
}

/// An external round: the linear layer, and then the constants and the s-boxes.
pub proof fn law_external_round(
    field: FieldModel,
    constants: Seq<int>,
    x: Seq<int>,
    m: int,
    i: int,
)
    requires
        field.prime > 1,
        field.prime % 2 == 1,
        0 <= i < x.len(),
        (m * 0x1_0000_0000 - (external_layer(x)[i] + constants[i])) % field.prime == 0,
    ensures
        field.external_round(constants, x).len() == x.len(),
        0 <= field.external_round(constants, x)[i] < field.prime,
        (field.external_round(constants, x)[i] - field.factor * pow(m, field.degree)) % field.prime
            == 0,
{
    law_constants_and_sbox(field, constants, external_layer(x), m, i);
}

/// The linear layer of what the s-boxes make of the numbers `m`.
proof fn lemma_layer_of_powers(
    field: FieldModel,
    constants: Seq<int>,
    x: Seq<int>,
    m: Seq<int>,
)
    requires
        field.prime > 1,
        field.prime % 2 == 1,
        x.len() % 4 == 0,
        m.len() == x.len(),
        forall|j: int|
            0 <= j < x.len() ==> (#[trigger] m[j] * 0x1_0000_0000 - (x[j] + constants[j]))
                % field.prime == 0,
    ensures
        all_congruent(
            external_layer(field.constants_and_sbox(constants, x)),
            external_layer(
                Seq::new(x.len(), |j: int| field.factor * pow(m[j], field.degree)),
            ),
            field.prime,
        ),
{
    let p = field.prime;
    let u = field.constants_and_sbox(constants, x);
    let w = Seq::new(x.len(), |j: int| field.factor * pow(m[j], field.degree));
    assert forall|j: int| 0 <= j < x.len() implies congruent(#[trigger] u[j], w[j], p) by {
        assert((m[j] * 0x1_0000_0000 - (x[j] + constants[j])) % p == 0);
        law_constants_and_sbox(field, constants, x, m[j], j);
        lemma_mod_equivalence(u[j], w[j], p);
    }
    lemma_external_layer_congruent(u, w, p);
}

/// Without round constants, the initial external rounds are the linear layer, divided by `2^32`.
pub proof fn law_no_initial_round(field: FieldModel, x: Seq<int>, i: int)
    requires
        field.prime > 1,
        field.prime % 2 == 1,
        0 <= i < x.len(),
    ensures
        field.initial_rounds(Seq::empty(), x).len() == x.len(),
        0 <= field.initial_rounds(Seq::empty(), x)[i] < field.prime,
        (field.initial_rounds(Seq::empty(), x)[i] * 0x1_0000_0000 - external_layer(x)[i])
            % field.prime == 0,
{
    law_monty_reduce(external_layer(x)[i], 0, field.prime);
}

/// One more initial external round: if `m` times `2^32` is what the rounds with the constants
/// `constants` give, times `2^32` and with the constants `last` added, then the rounds with `last`
/// behind the other constants give the linear layer of the powers of `m`, divided by `2^32`.
pub proof fn law_one_more_initial_round(
    field: FieldModel,
    constants: Seq<Seq<int>>,
    last: Seq<int>,
    x: Seq<int>,
    m: Seq<int>,
    i: int,
)
    requires
        field.prime > 1,
        field.prime % 2 == 1,
        x.len() % 4 == 0,
        0 <= i < x.len(),
        m.len() == x.len(),
        forall|j: int|
            0 <= j < x.len() ==> (#[trigger] m[j] * 0x1_0000_0000 - (field.initial_rounds(
                constants,
                x,
            )[j] * 0x1_0000_0000 + last[j])) % field.prime == 0,
    ensures
        field.initial_rounds(constants.push(last), x).len() == x.len(),
        0 <= field.initial_rounds(constants.push(last), x)[i] < field.prime,
        (field.initial_rounds(constants.push(last), x)[i] * 0x1_0000_0000 - external_layer(
            Seq::new(x.len(), |j: int| field.factor * pow(m[j], field.degree)),
        )[i]) % field.prime == 0,
{
    let p = field.prime;
    let all = constants.push(last);
    let e = field.external_rounds(constants, x);
    let z = field.initial_rounds(constants, x);
    let l = external_layer(e);
    let u = field.constants_and_sbox(last, l);
    let w = Seq::new(x.len(), |j: int| field.factor * pow(m[j], field.degree));
    field.lemma_external_rounds_len(constants, x);
    assert(all.drop_last() =~= constants);
    assert(all.last() == last);
    assert(field.external_rounds(all, x) == u);
    assert forall|j: int| 0 <= j < x.len() implies (#[trigger] m[j] * 0x1_0000_0000 - (l[j]
        + last[j])) % p == 0 by {
        law_monty_reduce(l[j], 0, p);
        assert(z[j] == monty_reduce(l[j], p));
        lemma_mod_equivalence(z[j] * 0x1_0000_0000, l[j], p);
        lemma_congruent_add(z[j] * 0x1_0000_0000, l[j], last[j], last[j], p);
        lemma_mod_equivalence(m[j] * 0x1_0000_0000, z[j] * 0x1_0000_0000 + last[j], p);
        lemma_mod_equivalence(m[j] * 0x1_0000_0000, l[j] + last[j], p);
    }
    lemma_layer_of_powers(field, last, l, m);
    let y = external_layer(u)[i];
    law_monty_reduce(y, 0, p);
    let out = field.initial_rounds(all, x)[i];
    assert(out == monty_reduce(y, p));
    assert(congruent(external_layer(u)[i], external_layer(w)[i], p));
    lemma_mod_equivalence(out * 0x1_0000_0000, y, p);
    lemma_mod_equivalence(out * 0x1_0000_0000, external_layer(w)[i], p);
}

/// A single final external round: if `m` times `2^32` is `x` with the constants added, then the
/// round gives the linear layer of the powers of `m`.
pub proof fn law_first_final_round(
    field: FieldModel,
    constants: Seq<int>,
    x: Seq<int>,
    m: Seq<int>,
    i: int,
)
    requires
        field.prime > 1,
        field.prime % 2 == 1,
        x.len() % 4 == 0,
        0 <= i < x.len(),
        m.len() == x.len(),
        forall|j: int|
            0 <= j < x.len() ==> (#[trigger] m[j] * 0x1_0000_0000 - (x[j] + constants[j]))
                % field.prime == 0,
    ensures
        field.final_rounds(seq![constants], x).len() == x.len(),
        (field.final_rounds(seq![constants], x)[i] - external_layer(
            Seq::new(x.len(), |j: int| field.factor * pow(m[j], field.degree)),
        )[i]) % field.prime == 0,
{
    let u = field.constants_and_sbox(constants, x);
    let w = Seq::new(x.len(), |j: int| field.factor * pow(m[j], field.degree));
    assert(seq![constants].skip(1) =~= Seq::empty());
    lemma_layer_of_powers(field, constants, x, m);
    assert(congruent(external_layer(u)[i], external_layer(w)[i], field.prime));
    lemma_mod_equivalence(external_layer(u)[i], external_layer(w)[i], field.prime);
}

/// One more final external round: if `m` times `2^32` is what the rounds with the constants
/// `constants` give, with the constants `last` added, then the rounds with `last` behind the other
/// constants give the linear layer of the powers of `m`.
pub proof fn law_one_more_final_round(
    field: FieldModel,
    constants: Seq<Seq<int>>,
    last: Seq<int>,
    x: Seq<int>,
    m: Seq<int>,
    i: int,
)
    requires
        field.prime > 1,
        field.prime % 2 == 1,
        x.len() % 4 == 0,
        0 <= i < x.len(),
        constants.len() > 0,
        m.len() == x.len(),
        forall|j: int|
            0 <= j < x.len() ==> (#[trigger] m[j] * 0x1_0000_0000 - (field.final_rounds(
                constants,
                x,
            )[j] + last[j])) % field.prime == 0,
    ensures
        field.final_rounds(constants.push(last), x).len() == x.len(),
        (field.final_rounds(constants.push(last), x)[i] - external_layer(
            Seq::new(x.len(), |j: int| field.factor * pow(m[j], field.degree)),
        )[i]) % field.prime == 0,
{
    let all = constants.push(last);
    let first = field.constants_and_sbox(constants[0], x);
    let e = field.external_rounds(constants.skip(1), first);
    let z = field.final_rounds(constants, x);
    let u = field.constants_and_sbox(last, z);
    let w = Seq::new(x.len(), |j: int| field.factor * pow(m[j], field.degree));
    field.lemma_external_rounds_len(constants.skip(1), first);
    assert(z == external_layer(e));
    assert(all.skip(1).drop_last() =~= constants.skip(1));
    assert(all.skip(1).last() == last);
    assert(all[0] == constants[0]);
    assert(field.external_rounds(all.skip(1), first) == u);
    lemma_layer_of_powers(field, last, z, m);
    assert(congruent(external_layer(u)[i], external_layer(w)[i], field.prime));
    lemma_mod_equivalence(external_layer(u)[i], external_layer(w)[i], field.prime);
}

/// Without round constants the internal rounds change nothing, and with one more constant there is
/// one more round behind the others.
pub proof fn law_one_more_internal_round(
    field: FieldModel,
    shifts: Seq<int>,
    constants: Seq<u32>,
    last: u32,
    x: Seq<int>,
)
    ensures
        field.internal_rounds(shifts, Seq::empty(), x) == x,
        field.internal_rounds(shifts, constants.push(last), x) == field.internal_round(
            shifts,
            last as int,
            field.internal_rounds(shifts, constants, x),
        ),
{
    assert(constants.push(last).drop_last() =~= constants);
}

/// The permutation is the initial external rounds, the internal rounds, the final external rounds
/// and a division by `2^32`, and gives residues.
pub proof fn law_permutation_in_order(
    field: FieldModel,
    shifts: Seq<int>,
    initial_constants: Seq<Seq<int>>,
    internal_constants: Seq<u32>,
    final_constants: Seq<Seq<int>>,
    x: Seq<int>,
    i: int,
)
    requires
        field.prime > 1,
        field.prime % 2 == 1,
        x.len() > 0,
        0 <= i < x.len(),
    ensures
        ({
            let a = field.initial_rounds(initial_constants, x);
            let b = field.internal_rounds(shifts, internal_constants, a);
            let c = field.final_rounds(final_constants, b);
            let y = field.poseidon2(
                shifts,
                initial_constants,
                internal_constants,
                final_constants,
                x,
            );
            &&& y.len() == x.len()
            &&& 0 <= y[i] < field.prime
            &&& (y[i] * 0x1_0000_0000 - c[i]) % field.prime == 0
        }),
{
    let a = field.initial_rounds(initial_constants, x);
    let b = field.internal_rounds(shifts, internal_constants, a);
    let c = field.final_rounds(final_constants, b);
    field.lemma_external_rounds_len(initial_constants, x);
    field.lemma_internal_rounds_len(shifts, internal_constants, a);
    field.lemma_external_rounds_len(
        final_constants.skip(1),
        field.constants_and_sbox(final_constants[0], b),
    );
    law_monty_reduce(c[i], 0, field.prime);
}

/// Replacing `a` by a congruent `s` in what an internal round divides by `2^32`.
proof fn lemma_layer_with_power(y: int, a: int, s: int, rest: int, lead: bool, d: int, p: int)
    requires
        p > 0,
        (a - s) % p == 0,
        (y - (a + rest + if lead {
            -2 * a
        } else {
            d
        })) % p == 0,
    ensures
        (y - (s + rest + if lead {
            -2 * s
        } else {
            d
        })) % p == 0,
{
    lemma_mod_equivalence(a, s, p);
    let e = if lead {
        -2 * a
    } else {
        d
    };
    let f = if lead {
        -2 * s
    } else {
        d
    };
    lemma_congruent_mul(-2, -2, a, s, p);
    lemma_congruent_add(a, s, rest, rest, p);
    lemma_congruent_add(a + rest, s + rest, e, f, p);
    lemma_mod_equivalence(y, a + rest + e, p);
    lemma_mod_equivalence(y, s + rest + f, p);
}

/// An internal round on the elements `x` of an instance. With `s` for the power of element 0 and
/// its constant, the round divides by `2^32` what the matrix makes of `s, x1, x2, ...`: the sum of
/// all, less `2 * s` for element 0, and with `x` times a power of two for the others.
pub proof fn law_internal_round<const HEIGHT: usize, P2AVX2: Poseidon2AVX2Methods<HEIGHT>>(
    rc: u32,
    before: Packed64bitM31Tensor<HEIGHT>,
    after: Packed64bitM31Tensor<HEIGHT>,
    k: int,
    i: int,
)
    requires
        supported(HEIGHT),
        0 <= k < instances(HEIGHT),
        0 <= i < width(HEIGHT),
        all_congruent(
            after@[k],
            P2AVX2::field().internal_round(P2AVX2::INTERNAL_SHIFTS@[0], rc as int, before@[k]),
            P2AVX2::field().prime,
        ),
    ensures
        ({
            let p = P2AVX2::field().prime;
            let x = before@[k];
            let s = P2AVX2::field().internal_factor * pow(x[0] + rc, P2AVX2::field().degree);
            let d = if i == 0 {
                -2 * s
            } else {
                x[i] * pow2(P2AVX2::INTERNAL_SHIFTS@[0][i] as nat)
            };
            &&& HEIGHT != 3 ==> (after@[k][i] * 0x1_0000_0000 - (s + (
                x[1] + x[2] + x[3] + x[4] + x[5] + x[6] + x[7] + x[8] + x[9] + x[10] + x[11]
                    + x[12] + x[13] + x[14] + x[15]) + d)) % p == 0
            &&& HEIGHT == 3 ==> (after@[k][i] * 0x1_0000_0000 - (s + (
                x[1] + x[2] + x[3] + x[4] + x[5] + x[6] + x[7] + x[8] + x[9] + x[10] + x[11]
                    + x[12] + x[13] + x[14] + x[15] + x[16] + x[17] + x[18] + x[19] + x[20] + x[21]
                    + x[22] + x[23]) + d)) % p == 0
        }),
{
    let field = P2AVX2::field();
    let p = field.prime;
    let shifts = P2AVX2::INTERNAL_SHIFTS@[0];
    let x = before@[k];
    let a = field.internal_sbox(x[0] + rc);
    let s = field.internal_factor * pow(x[0] + rc, field.degree);
    let z = x.update(0, a);
    let l = internal_layer(shifts, z)[i];
    let out = after@[k][i];
    P2AVX2::field_facts();
    lemma_odd_prime(p);
    law_sbox(field, x[0] + rc);
    law_internal_layer(shifts, z, i);
    law_monty_reduce(l, 0, p);
    let y = out * 0x1_0000_0000;
    assert((y - l) % p == 0) by {
        let n = monty_reduce(l, p);
        assert(field.internal_round(shifts, rc as int, x)[i] == n);
        assert(congruent(after@[k][i], n, p));
        lemma_congruent_mul(out, n, radix(), radix(), p);
        lemma_mod_equivalence(n * 0x1_0000_0000, l, p);
        lemma_mod_equivalence(y, l, p);
    }
    let d = x[i] * pow2(shifts[i] as nat);
    if HEIGHT != 3 {
        let rest = (
            x[1] + x[2] + x[3] + x[4] + x[5] + x[6] + x[7] + x[8] + x[9] + x[10] + x[11]
                    + x[12] + x[13] + x[14] + x[15]);
        assert(l == a + rest + if i == 0 {
            -2 * a
        } else {
            d
        });
        lemma_layer_with_power(y, a, s, rest, i == 0, d, p);
    } else {
        let rest = (
            x[1] + x[2] + x[3] + x[4] + x[5] + x[6] + x[7] + x[8] + x[9] + x[10] + x[11]
                    + x[12] + x[13] + x[14] + x[15] + x[16] + x[17] + x[18] + x[19] + x[20] + x[21]
                    + x[22] + x[23]);
        assert(l == a + rest + if i == 0 {
            -2 * a
        } else {
            d
        });
        lemma_layer_with_power(y, a, s, rest, i == 0, d, p);
    }
}

/// Calls of [`crate::internal_rounds`] with the constants `constants`, and with one more constant
/// `last`: what the second returns is an internal round on what the first returns. With
/// [`law_internal_round`] this says how their lanes are related.
pub proof fn law_one_more_internal_round_in_calls<
    const HEIGHT: usize,
    P2AVX2: Poseidon2AVX2Methods<HEIGHT>,
>(
    constants: Seq<u32>,
    last: u32,
    state: Packed64bitM31Tensor<HEIGHT>,
    fewer: Packed64bitM31Tensor<HEIGHT>,
    more: Packed64bitM31Tensor<HEIGHT>,
    k: int,
)
    requires
        supported(HEIGHT),
        0 <= k < instances(HEIGHT),
        all_congruent(
            fewer@[k],
            P2AVX2::field().internal_rounds(P2AVX2::INTERNAL_SHIFTS@[0], constants, state@[k]),
            P2AVX2::field().prime,
        ),
        all_congruent(
            more@[k],
            P2AVX2::field().internal_rounds(
                P2AVX2::INTERNAL_SHIFTS@[0],
                constants.push(last),
                state@[k],
            ),
            P2AVX2::field().prime,
        ),
    ensures
        all_congruent(
            more@[k],
            P2AVX2::field().internal_round(
                P2AVX2::INTERNAL_SHIFTS@[0],
                last as int,
                fewer@[k],
            ),
            P2AVX2::field().prime,
        ),
{
    let field = P2AVX2::field();
    let shifts = P2AVX2::INTERNAL_SHIFTS@[0];
    P2AVX2::field_facts();
    law_one_more_internal_round(field, shifts, constants, last, state@[k]);
    field.lemma_internal_round_congruent(
        shifts,
        last as int,
        fewer@[k],
        field.internal_rounds(shifts, constants, state@[k]),
    );
}

/// What the permutation makes of data: for each instance that they hold, the rounds with the
/// constants of that instance, one after the other, and a division by `2^32`.
pub proof fn law_permuted<const HEIGHT: usize, P2AVX2: Poseidon2AVX2Methods<HEIGHT>>(
    permutation: Poseidon2AVX2<HEIGHT, P2AVX2>,
    input: P2AVX2::InputOutput,
    out: Seq<Seq<int>>,
)
    requires
        supported(HEIGHT),
        out.len() == instances(HEIGHT),
        forall|k: int|
            0 <= k < instances(HEIGHT) ==> (#[trigger] out[k]).len() == width(HEIGHT)
                && P2AVX2::input_instances(input)[k].len() == width(HEIGHT),
        forall|k: int, i: int|
            0 <= k < instances(HEIGHT) && 0 <= i < width(HEIGHT) ==> 0 <= #[trigger] out[k][i]
                < P2AVX2::field().prime && (out[k][i] * 0x1_0000_0000
                - P2AVX2::field().final_rounds(
                Seq::new(
                    permutation.final_constants().len(),
                    |j: int| permutation.final_constants()[j]@[k],
                ),
                P2AVX2::field().internal_rounds(
                    P2AVX2::INTERNAL_SHIFTS@[0],
                    permutation.internal_constants(),
                    P2AVX2::field().initial_rounds(
                        Seq::new(
                            permutation.initial_constants().len(),
                            |j: int| permutation.initial_constants()[j]@[k],
                        ),
                        P2AVX2::input_instances(input)[k],
                    ),
                ),
            )[i]) % P2AVX2::field().prime == 0,
    ensures
        permutation.permuted(input) == P2AVX2::output_of(out),
{
    let field = P2AVX2::field();
    P2AVX2::field_facts();
    lemma_odd_prime(field.prime);
    let shifts = P2AVX2::INTERNAL_SHIFTS@[0];
    let results = Seq::new(
        instances(HEIGHT),
        |k: int| permutation.permuted_instance(k, P2AVX2::input_instances(input)[k]),
    );
    assert forall|k: int| 0 <= k < instances(HEIGHT) implies #[trigger] results[k] == out[k] by {
        let x = P2AVX2::input_instances(input)[k];
        let a = Seq::new(
            permutation.initial_constants().len(),
            |j: int| permutation.initial_constants()[j]@[k],
        );
        let b = Seq::new(
            permutation.final_constants().len(),
            |j: int| permutation.final_constants()[j]@[k],
        );
        assert(out[k].len() == width(HEIGHT));
        assert(instance_constants(permutation.initial_constants(), k) =~= a);
        assert(instance_constants(permutation.final_constants(), k) =~= b);
        let y = field.internal_rounds(
            shifts,
            permutation.internal_constants(),
            field.initial_rounds(a, x),
        );
        let c = field.final_rounds(b, y);
        assert forall|i: int| 0 <= i < width(HEIGHT) implies results[k][i] == out[k][i] by {
            law_permutation_in_order(
                field,
                shifts,
                a,
                permutation.internal_constants(),
                b,
                x,
                i,
            );
            assert(0 <= out[k][i] < field.prime);
            assert((out[k][i] * 0x1_0000_0000 - c[i]) % field.prime == 0);
            law_monty_reduce(c[i], out[k][i], field.prime);
            law_monty_reduce(c[i], results[k][i], field.prime);
        }
        law_permutation_in_order(field, shifts, a, permutation.internal_constants(), b, x, 0);
        assert(results[k] =~= out[k]);
    }
    assert(results =~= out);
}

/// When a permutation can run.
pub proof fn law_valid<const HEIGHT: usize, P2AVX2: Poseidon2AVX2Methods<HEIGHT>>(
    permutation: Poseidon2AVX2<HEIGHT, P2AVX2>,
)
    ensures
        permutation.valid() <==> {
            &&& forall|j: int|
                0 <= j < permutation.initial_constants().len()
                    ==> (#[trigger] permutation.initial_constants()[j]).all_below(
                    P2AVX2::field().prime,
                )
            &&& forall|j: int|
                0 <= j < permutation.final_constants().len()
                    ==> (#[trigger] permutation.final_constants()[j]).all_below(
                    P2AVX2::field().prime,
                )
            &&& forall|j: int|
                0 <= j < permutation.internal_constants().len()
                    ==> #[trigger] permutation.internal_constants()[j] < P2AVX2::field().prime
            &&& permutation.final_constants().len() > 0
        },
{
}

/// The constants that [`Poseidon2AVX2::new_from_rng_128`] makes are the samples, in order: the
/// first half of them for the initial rounds, the second half for the final rounds, and the same
/// for every instance.
pub proof fn law_constants_are_the_samples<
    const HEIGHT: usize,
    P2AVX2: Poseidon2AVX2Methods<HEIGHT>,
>(
    permutation: Poseidon2AVX2<HEIGHT, P2AVX2>,
    rounds_f: usize,
    samples: Seq<P2AVX2::ExternalConstantsInput>,
    j: int,
    k: int,
)
    requires
        samples.len() >= 2 * (rounds_f / 2),
        0 <= j < rounds_f / 2,
        0 <= k < instances(HEIGHT),
        instance_constants(permutation.initial_constants(), k) == sampled_constants::<
            HEIGHT,
            P2AVX2,
        >(samples.subrange(0, (rounds_f / 2) as int)),
        instance_constants(permutation.final_constants(), k) == sampled_constants::<
            HEIGHT,
            P2AVX2,
        >(samples.subrange((rounds_f / 2) as int, 2 * (rounds_f / 2))),
    ensures
        permutation.initial_constants().len() == rounds_f / 2,
        permutation.final_constants().len() == rounds_f / 2,
        permutation.initial_constants()[j]@[k] == P2AVX2::external_constants(samples[j]),
        permutation.final_constants()[j]@[k] == P2AVX2::external_constants(
            samples[rounds_f / 2 + j],
        ),
{
    let a = instance_constants(permutation.initial_constants(), k);
    let b = instance_constants(permutation.final_constants(), k);
    assert(a.len() == rounds_f / 2);
    assert(b.len() == rounds_f / 2);
    assert(a[j] == P2AVX2::external_constants(samples[j]));
    assert(b[j] == P2AVX2::external_constants(samples[rounds_f / 2 + j]));
}

} // verus!
