//! Residues modulo the field's prime, and the Montgomery reduction on them.
use vstd::arithmetic::div_mod::*;
use vstd::arithmetic::power::*;
use vstd::prelude::*;

verus! {

/// The Montgomery radix `2^32`.
pub open spec fn radix() -> int {
    0x1_0000_0000
}

/// `a` and `b` are the same residue modulo `p`.
pub open spec fn congruent(a: int, b: int, p: int) -> bool {
    a % p == b % p
}

/// `x` and `y` have the same length and agree modulo `p` in every element.
pub open spec fn all_congruent(x: Seq<int>, y: Seq<int>, p: int) -> bool {
    &&& x.len() == y.len()
    &&& forall|i: int| 0 <= i < x.len() ==> congruent(#[trigger] x[i], y[i], p)
}

/// The inverse of the radix modulo an odd `p`: the inverse of two, 32 times over.
pub open spec fn radix_inverse(p: int) -> int {
    pow((p + 1) / 2, 32) % p
}

/// The Montgomery reduction of `x`: the residue of `x / 2^32`.
pub open spec fn monty_reduce(x: int, p: int) -> int {
    (x * radix_inverse(p)) % p
}

pub proof fn lemma_congruent_add(a: int, b: int, c: int, d: int, p: int)
    requires
        p > 0,
        congruent(a, b, p),
        congruent(c, d, p),
    ensures
        congruent(a + c, b + d, p),
{
    lemma_add_mod_noop(a, c, p);
    lemma_add_mod_noop(b, d, p);
}

pub proof fn lemma_congruent_mul(a: int, b: int, c: int, d: int, p: int)
    requires
        p > 0,
        congruent(a, b, p),
        congruent(c, d, p),
    ensures
        congruent(a * c, b * d, p),
{
    lemma_mul_mod_noop(a, c, p);
    lemma_mul_mod_noop(b, d, p);
}

pub proof fn lemma_congruent_pow(a: int, b: int, e: nat, p: int)
    requires
        p > 0,
        congruent(a, b, p),
    ensures
        congruent(pow(a, e), pow(b, e), p),
    decreases e,
{
    reveal(pow);
    if e > 0 {
        lemma_congruent_pow(a, b, (e - 1) as nat, p);
        lemma_congruent_mul(a, b, pow(a, (e - 1) as nat), pow(b, (e - 1) as nat), p);
    }
}

/// Powers of the inverse of two undo powers of two.
proof fn lemma_half_pow(p: int, e: nat)
    requires
        p > 1,
        p % 2 == 1,
    ensures
        (pow((p + 1) / 2, e) * pow(2, e)) % p == 1,
    decreases e,
{
    reveal(pow);
    let half = (p + 1) / 2;
    if e == 0 {
        lemma_small_mod(1, p as nat);
    } else {
        let e1 = (e - 1) as nat;
        lemma_half_pow(p, e1);
        let a = pow(half, e1);
        let b = pow(2, e1);
        assert((half * a) * (2 * b) == (half * 2) * (a * b)) by (nonlinear_arith);
        assert(half * 2 == 1 + p);
        assert((1 + p) % p == 1) by {
            lemma_mod_add_multiples_vanish(1, p);
            lemma_small_mod(1, p as nat);
        }
        lemma_small_mod(1, p as nat);
        lemma_congruent_mul(half * 2, 1, a * b, 1, p);
    }
}

/// `radix_inverse(p)` is the inverse of the radix modulo `p`.
pub proof fn lemma_radix_inverse(p: int)
    requires
        p > 1,
        p % 2 == 1,
    ensures
        (radix_inverse(p) * radix()) % p == 1,
{
    assert(pow(2, 32) == radix()) by {
        reveal(pow);
        reveal_with_fuel(pow, 33);
    }
    lemma_half_pow(p, 32);
    lemma_mul_mod_noop_left(pow((p + 1) / 2, 32), radix(), p);
}

/// The Montgomery reduction of `x` is the one residue that gives back `x` when it is multiplied
/// by the radix.
pub proof fn lemma_monty_reduce_unique(x: int, y: int, p: int)
    requires
        p > 1,
        p % 2 == 1,
    ensures
        0 <= monty_reduce(x, p) < p,
        congruent(monty_reduce(x, p) * radix(), x, p),
        congruent(y * radix(), x, p) <==> y % p == monty_reduce(x, p),
{
    let inv = radix_inverse(p);
    let r = radix();
    lemma_radix_inverse(p);
    lemma_small_mod(1, p as nat);
    assert forall|z: int| congruent(#[trigger] (z * (inv * r)), z, p) by {
        lemma_congruent_mul(z, z, inv * r, 1, p);
    }
    let m = monty_reduce(x, p);
    lemma_mod_bound(x * inv, p);
    assert(congruent(m * r, x, p)) by {
        lemma_mod_twice(x * inv, p);
        lemma_congruent_mul(m, x * inv, r, r, p);
        assert((x * inv) * r == x * (inv * r)) by (nonlinear_arith);
    }
    if congruent(y * r, x, p) {
        lemma_congruent_mul(y * r, x, inv, inv, p);
        assert((y * r) * inv == y * (inv * r)) by (nonlinear_arith);
    }
    if y % p == m {
        lemma_mod_twice(x * inv, p);
        lemma_congruent_mul(y, m, r, r, p);
    }
}

/// The Montgomery reduction depends on the residue alone.
pub proof fn lemma_monty_reduce_congruent(x: int, y: int, p: int)
    requires
        p > 0,
        congruent(x, y, p),
    ensures
        monty_reduce(x, p) == monty_reduce(y, p),
{
    lemma_congruent_mul(x, y, radix_inverse(p), radix_inverse(p), p);
}

} // verus!
