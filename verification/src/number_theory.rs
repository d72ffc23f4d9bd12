//! Primes, and the powers that permute the residues modulo a prime.
use crate::field::{congruent, lemma_congruent_add, lemma_congruent_mul, lemma_congruent_pow};
use vstd::arithmetic::div_mod::*;
use vstd::arithmetic::power::*;
use vstd::prelude::*;

verus! {

/// `p` is a prime.
pub open spec fn is_prime(p: int) -> bool {
    &&& p > 1
    &&& forall|d: int| 1 < d < p ==> #[trigger] (p % d) != 0
}

/// A prime above 2 is odd.
pub proof fn lemma_odd_prime(p: int)
    requires
        is_prime(p),
        p > 2,
    ensures
        p % 2 == 1,
{
    assert(p % 2 != 0);
}

/// No integer above 1 divides both `a` and `b`.
pub open spec fn coprime(a: int, b: int) -> bool {
    forall|d: int| d > 1 ==> #[trigger] (a % d) != 0 || b % d != 0
}

/// Two coprime numbers combine to 1.
proof fn lemma_bezout(a: int, b: int) -> (uv: (int, int))
    requires
        a >= 0,
        b >= 0,
        coprime(a, b),
    ensures
        a * uv.0 + b * uv.1 == 1,
    decreases b,
{
    if b == 0 {
        if a == 0 {
            assert(a % 2 == 0 && b % 2 == 0);
        } else if a > 1 {
            lemma_mod_self_0(a);
            lemma_small_mod(0, a as nat);
            assert(a % a != 0 || b % a != 0);
        }
        (1, 0)
    } else {
        let q = a / b;
        let r = a % b;
        lemma_fundamental_div_mod(a, b);
        assert forall|d: int| d > 1 implies #[trigger] (b % d) != 0 || r % d != 0 by {
            if b % d == 0 && r % d == 0 {
                lemma_small_mod(0, d as nat);
                lemma_congruent_mul(b, 0, q, q, d);
                lemma_congruent_add(b * q, 0, r, 0, d);
                assert(a % d == 0);
            }
        }
        let (u, v) = lemma_bezout(b, r);
        assert(a * v + b * (u - q * v) == b * u + r * v) by (nonlinear_arith)
            requires
                a == b * q + r,
        ;
        (v, u - q * v)
    }
}

/// What is not zero modulo a prime has an inverse.
pub proof fn lemma_prime_inverse(x: int, p: int) -> (inverse: int)
    requires
        is_prime(p),
        x % p != 0,
    ensures
        congruent(x * inverse, 1, p),
{
    let r = x % p;
    lemma_mod_bound(x, p);
    assert forall|d: int| d > 1 implies #[trigger] (r % d) != 0 || p % d != 0 by {
        if p % d == 0 {
            if d > p {
                lemma_small_mod(p as nat, d as nat);
            }
            assert(d == p);
            lemma_small_mod(r as nat, p as nat);
        }
    }
    let (u, v) = lemma_bezout(r, p);
    assert(r * u == 1 - v * p) by (nonlinear_arith)
        requires
            r * u + p * v == 1,
    ;
    assert(congruent(r * u, 1, p)) by {
        lemma_mod_multiples_basic(-v, p);
        lemma_small_mod(0, p as nat);
        assert((-v) * p == -(v * p)) by (nonlinear_arith);
        lemma_congruent_add(1, 1, (-v) * p, 0, p);
    }
    lemma_mod_twice(x, p);
    lemma_congruent_mul(r, x, u, u, p);
    u
}

/// What is not zero modulo a prime can be cancelled.
pub proof fn lemma_prime_cancel(c: int, x: int, y: int, p: int)
    requires
        is_prime(p),
        c % p != 0,
        congruent(c * x, c * y, p),
    ensures
        congruent(x, y, p),
{
    let inv = lemma_prime_inverse(c, p);
    lemma_congruent_mul(inv, inv, c * x, c * y, p);
    assert(inv * (c * x) == (c * inv) * x) by (nonlinear_arith);
    assert(inv * (c * y) == (c * inv) * y) by (nonlinear_arith);
    lemma_congruent_mul(c * inv, 1, x, x, p);
    lemma_congruent_mul(c * inv, 1, y, y, p);
}

/// The binomial coefficients.
spec fn binomial(n: nat, k: nat) -> nat
    decreases n,
{
    if k == 0 {
        1
    } else if n == 0 {
        0
    } else {
        binomial((n - 1) as nat, (k - 1) as nat) + binomial((n - 1) as nat, k)
    }
}

proof fn lemma_binomial_ends(n: nat, k: nat)
    requires
        k >= n,
    ensures
        k > n ==> binomial(n, k) == 0,
        k == n ==> binomial(n, k) == 1,
    decreases n,
{
    if n > 0 {
        lemma_binomial_ends((n - 1) as nat, (k - 1) as nat);
        lemma_binomial_ends((n - 1) as nat, k);
    }
}

/// `k * C(n, k) = n * C(n - 1, k - 1)`.
proof fn lemma_binomial_absorb(n: nat, k: nat)
    requires
        n > 0,
        k > 0,
    ensures
        k * binomial(n, k) == n * binomial((n - 1) as nat, (k - 1) as nat),
    decreases n,
{
    let n1 = (n - 1) as nat;
    let k1 = (k - 1) as nat;
    let a = binomial(n1, k1);
    let b = binomial(n1, k);
    assert(binomial(n, k) == a + b);
    if n1 == 0 {
        lemma_binomial_ends(0, k);
        assert(k * (a + b) == n * a) by (nonlinear_arith)
            requires
                n == 1,
                b == 0,
                k == 1 || a == 0,
        ;
    } else {
        let n2 = (n1 - 1) as nat;
        let d = binomial(n2, k1);
        lemma_binomial_absorb(n1, k);
        assert(k * b == n1 * d);
        if k1 == 0 {
            assert(k * (a + b) == n * a) by (nonlinear_arith)
                requires
                    k == 1,
                    a == 1,
                    d == 1,
                    k * b == n1 * d,
                    n == n1 + 1,
            ;
        } else {
            lemma_binomial_absorb(n1, k1);
            let c = binomial(n2, (k1 - 1) as nat);
            assert(a == c + d);
            assert(k * (a + b) == n * a) by (nonlinear_arith)
                requires
                    k == k1 + 1,
                    n == n1 + 1,
                    k1 * a == n1 * c,
                    k * b == n1 * d,
                    a == c + d,
            ;
        }
    }
}

/// The first `m` terms of the binomial expansion of `(a + 1)^n`.
spec fn expansion(a: int, n: nat, m: nat) -> int
    decreases m,
{
    if m == 0 {
        0
    } else {
        expansion(a, n, (m - 1) as nat) + binomial(n, (m - 1) as nat) * pow(a, (m - 1) as nat)
    }
}

proof fn lemma_expansion_step(a: int, n: nat, m: nat)
    requires
        m > 0,
    ensures
        expansion(a, n + 1, m) == a * expansion(a, n, (m - 1) as nat) + expansion(a, n, m),
    decreases m,
{
    let k = (m - 1) as nat;
    if k == 0 {
        reveal_with_fuel(expansion, 2);
        assert(a * 0 == 0);
    } else {
        let k1 = (k - 1) as nat;
        lemma_expansion_step(a, n, k);
        lemma_pow_unfold(a, k);
        assert(binomial(n + 1, k) == binomial(n, k1) + binomial(n, k));
        let x = binomial(n, k1);
        let y = binomial(n, k);
        let e = expansion(a, n, k1);
        assert((x + y) * pow(a, k) + a * e == a * (e + x * pow(a, k1)) + y * pow(a, k))
            by (nonlinear_arith)
            requires
                pow(a, k) == a * pow(a, k1),
        ;
    }
}

proof fn lemma_pow_unfold(a: int, k: nat)
    requires
        k > 0,
    ensures
        pow(a, k) == a * pow(a, (k - 1) as nat),
{
    reveal(pow);
}

/// The binomial theorem.
proof fn lemma_expansion(a: int, n: nat)
    ensures
        pow(a + 1, n) == expansion(a, n, n + 1),
    decreases n,
{
    if n == 0 {
        reveal_with_fuel(expansion, 2);
        lemma_pow0(a + 1);
        lemma_pow0(a);
    } else {
        let n1 = (n - 1) as nat;
        lemma_expansion(a, n1);
        lemma_pow_unfold(a + 1, n);
        lemma_expansion_step(a, n1, n + 1);
        lemma_binomial_ends(n1, n);
        assert(expansion(a, n1, n + 1) == expansion(a, n1, n) + 0 * pow(a, n));
        let e = expansion(a, n1, n);
        assert((a + 1) * e == a * e + e) by (nonlinear_arith);
        assert(0 * pow(a, n) == 0);
    }
}

/// A prime divides its binomial coefficients but the outer ones.
proof fn lemma_binomial_divisible(p: nat, k: nat)
    requires
        is_prime(p as int),
        0 < k < p,
    ensures
        binomial(p, k) as int % p as int == 0,
{
    lemma_binomial_absorb(p, k);
    let b = binomial(p, k) as int;
    let c = binomial((p - 1) as nat, (k - 1) as nat) as int;
    lemma_mod_multiples_basic(c, p as int);
    assert(k * b == c * p) by (nonlinear_arith)
        requires
            k * b == p * c,
    ;
    lemma_small_mod(k, p);
    lemma_small_mod(0, p);
    assert(k * 0 == 0);
    lemma_prime_cancel(k as int, b, 0, p as int);
}

proof fn lemma_expansion_of_prime(a: int, p: nat, m: nat)
    requires
        is_prime(p as int),
        1 <= m <= p,
    ensures
        congruent(expansion(a, p, m), 1, p as int),
    decreases m,
{
    if m == 1 {
        reveal_with_fuel(expansion, 2);
        lemma_pow0(a);
    } else {
        let k = (m - 1) as nat;
        lemma_expansion_of_prime(a, p, k);
        lemma_binomial_divisible(p, k);
        lemma_small_mod(0, p);
        lemma_congruent_mul(binomial(p, k) as int, 0, pow(a, k), pow(a, k), p as int);
        assert(0 * pow(a, k) == 0);
        lemma_congruent_add(
            expansion(a, p, k),
            1,
            binomial(p, k) * pow(a, k),
            0,
            p as int,
        );
    }
}

/// Fermat's little theorem.
pub proof fn lemma_fermat(a: nat, p: nat)
    requires
        is_prime(p as int),
    ensures
        congruent(pow(a as int, p), a as int, p as int),
    decreases a,
{
    if a == 0 {
        lemma_pow_unfold(0, p);
        assert(0 * pow(0, (p - 1) as nat) == 0);
    } else {
        let b = (a - 1) as nat;
        lemma_fermat(b, p);
        lemma_expansion(b as int, p);
        lemma_expansion_of_prime(b as int, p, p);
        lemma_binomial_ends(p, p);
        assert(expansion(b as int, p, p + 1) == expansion(b as int, p, p) + 1 * pow(
            b as int,
            p,
        ));
        lemma_congruent_add(
            expansion(b as int, p, p),
            1,
            pow(b as int, p),
            b as int,
            p as int,
        );
    }
}

/// Exponents count modulo `p - 1`.
proof fn lemma_pow_reduced(x: nat, p: nat, m: nat)
    requires
        is_prime(p as int),
    ensures
        congruent(pow(x as int, 1 + m * ((p - 1) as nat)), x as int, p as int),
    decreases m,
{
    let e = (p - 1) as nat;
    if m == 0 {
        assert(1 + m * e == 1) by (nonlinear_arith)
            requires
                m == 0,
        ;
        lemma_pow1(x as int);
    } else {
        let m1 = (m - 1) as nat;
        lemma_pow_reduced(x, p, m1);
        assert(1 + m * e == (1 + m1 * e) + e) by (nonlinear_arith)
            requires
                m == m1 + 1,
        ;
        lemma_pow_adds(x as int, 1 + m1 * e, e);
        lemma_congruent_mul(
            pow(x as int, 1 + m1 * e),
            x as int,
            pow(x as int, e),
            pow(x as int, e),
            p as int,
        );
        lemma_pow_unfold(x as int, p);
        lemma_fermat(x, p);
    }
}

/// Raising to a power that is coprime to `p - 1` permutes the residues modulo the prime `p`.
pub proof fn lemma_power_injective(x: nat, y: nat, s: nat, p: int)
    requires
        is_prime(p),
        p > 2,
        coprime(s as int, p - 1),
        congruent(pow(x as int, s), pow(y as int, s), p),
    ensures
        congruent(x as int, y as int, p),
{
    let e = p - 1;
    let (u, v) = lemma_bezout(s as int, e);
    // A positive inverse of `s` modulo `p - 1`.
    let t = u % e;
    lemma_fundamental_div_mod(u, e);
    lemma_mod_bound(u, e);
    let w = -(v + s * (u / e));
    assert(s * t == 1 + w * e) by (nonlinear_arith)
        requires
            s * u + e * v == 1,
            u == e * (u / e) + t,
            w == -(v + s * (u / e)),
    ;
    assert(w >= 0) by (nonlinear_arith)
        requires
            s * t == 1 + w * e,
            s >= 0,
            t >= 0,
            e > 1,
    ;
    lemma_congruent_pow(pow(x as int, s), pow(y as int, s), t as nat, p);
    lemma_pow_multiplies(x as int, s, t as nat);
    lemma_pow_multiplies(y as int, s, t as nat);
    lemma_pow_reduced(x, p as nat, w as nat);
    lemma_pow_reduced(y, p as nat, w as nat);
    assert(s * (t as nat) == 1 + (w as nat) * ((p - 1) as nat));
}

} // verus!
