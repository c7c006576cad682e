//! Primes, binomial coefficients and Fermat's little theorem, for the laws of the field.
use vstd::arithmetic::div_mod::{
    lemma_add_mod_noop, lemma_fundamental_div_mod, lemma_mod_add_multiples_vanish,
    lemma_mod_multiples_basic, lemma_mod_multiples_vanish, lemma_mul_mod_noop_left,
    lemma_small_mod,
};
use vstd::arithmetic::power::{lemma0_pow, lemma_pow_positive, pow};
use vstd::prelude::*;

verus! {

/// `p` has no divisor strictly between 1 and itself.
pub open spec fn is_prime(p: int) -> bool {
    &&& p > 1
    &&& forall|d: int| 1 < d < p ==> #[trigger] (p % d) != 0
}

/// Pascal's binomial coefficient `n choose k`.
pub open spec fn binom(n: nat, k: nat) -> nat
    decreases n,
{
    if k == 0 {
        1
    } else if n == 0 {
        0
    } else {
        binom((n - 1) as nat, (k - 1) as nat) + binom((n - 1) as nat, k)
    }
}

/// `sum of binom(n, i) * a^i for i < k`.
pub open spec fn binom_sum(a: int, n: nat, k: nat) -> int
    decreases k,
{
    if k == 0 {
        0
    } else {
        binom_sum(a, n, (k - 1) as nat) + binom(n, (k - 1) as nat) * pow(a, (k - 1) as nat)
    }
}

/// A prime that divides `m * b` but not `b` divides `m`.
pub proof fn lemma_prime_divides_factor(p: int, m: int, b: int)
    requires
        is_prime(p),
        m > 0,
        (m * b) % p == 0,
        b % p != 0,
    ensures
        m % p == 0,
    decreases m,
{
    let k = (m * b) / p;
    lemma_fundamental_div_mod(m * b, p);
    assert(m * b == k * p) by (nonlinear_arith)
        requires
            m * b == p * k + 0,
    ;
    if m >= p {
        if m == p {
            lemma_mod_multiples_basic(1, p);
        } else {
            assert((m - p) * b == (k - b) * p) by (nonlinear_arith)
                requires
                    m * b == k * p,
            ;
            lemma_mod_multiples_basic(k - b, p);
            lemma_prime_divides_factor(p, m - p, b);
            lemma_mod_add_multiples_vanish(m - p, p);
        }
    } else {
        let q = p / m;
        let r = p % m;
        lemma_fundamental_div_mod(p, m);
        if r == 0 {
            if m == 1 {
                assert(m * b == b) by (nonlinear_arith)
                    requires
                        m == 1,
                ;
            } else {
                assert(p % m != 0);
            }
        } else {
            assert(r * b == (b - q * k) * p) by (nonlinear_arith)
                requires
                    p == m * q + r,
                    m * b == k * p,
            ;
            lemma_mod_multiples_basic(b - q * k, p);
            lemma_prime_divides_factor(p, r, b);
            lemma_small_mod(r as nat, p as nat);
        }
    }
}

proof fn lemma_binom_above(n: nat, k: nat)
    requires
        k > n,
    ensures
        binom(n, k) == 0,
    decreases n,
{
    if n > 0 {
        lemma_binom_above((n - 1) as nat, (k - 1) as nat);
        lemma_binom_above((n - 1) as nat, k);
    }
}

proof fn lemma_binom_diagonal(n: nat)
    ensures
        binom(n, n) == 1,
    decreases n,
{
    if n > 0 {
        lemma_binom_diagonal((n - 1) as nat);
        lemma_binom_above((n - 1) as nat, n);
    }
}

proof fn lemma_binom_one(n: nat)
    ensures
        binom(n, 1) == n,
    decreases n,
{
    if n > 0 {
        lemma_binom_one((n - 1) as nat);
        assert(binom(n, 1) == binom((n - 1) as nat, 0) + binom((n - 1) as nat, 1));
    }
}

/// `k * binom(n, k) == n * binom(n - 1, k - 1)`.
proof fn lemma_binom_absorb(n: nat, k: nat)
    requires
        n >= 1,
        k >= 1,
    ensures
        k * binom(n, k) == n * binom((n - 1) as nat, (k - 1) as nat),
    decreases n,
{
    if k == 1 {
        lemma_binom_one(n);
        assert(binom((n - 1) as nat, 0) == 1);
        assert(k * binom(n, k) == n * 1) by (nonlinear_arith)
            requires
                k == 1,
                binom(n, k) == n,
        ;
    } else if n == 1 {
        lemma_binom_above(0, (k - 1) as nat);
        lemma_binom_above(0, k);
        assert(binom(n, k) == 0);
        assert(k * binom(n, k) == n * binom((n - 1) as nat, (k - 1) as nat)) by (nonlinear_arith)
            requires
                binom(n, k) == 0,
                binom((n - 1) as nat, (k - 1) as nat) == 0,
        ;
    } else {
        let n1 = (n - 1) as nat;
        let n2 = (n - 2) as nat;
        lemma_binom_absorb(n1, k);
        lemma_binom_absorb(n1, (k - 1) as nat);
        let c_a = binom(n1, (k - 1) as nat);
        let c_b = binom(n1, k);
        let d_a = binom(n2, (k - 2) as nat);
        let d_b = binom(n2, (k - 1) as nat);
        assert(binom(n, k) == c_a + c_b);
        assert(c_a == d_a + d_b);
        assert(k * c_b == n1 * d_b);
        assert((k - 1) * c_a == n1 * d_a);
        assert(k * (c_a + c_b) == n * c_a) by (nonlinear_arith)
            requires
                k * c_b == n1 * d_b,
                (k - 1) * c_a == n1 * d_a,
                c_a == d_a + d_b,
                n == n1 + 1,
        ;
    }
}

/// A prime divides every binomial coefficient of its own row but the two ends.
proof fn lemma_prime_divides_binom(p: nat, k: nat)
    requires
        is_prime(p as int),
        0 < k < p,
    ensures
        (binom(p, k) as int) % (p as int) == 0,
{
    let c = binom(p, k);
    lemma_binom_absorb(p, k);
    let j = binom((p - 1) as nat, (k - 1) as nat);
    assert(k * c == p * j);
    if c > 0 {
        assert(c * k == j * p) by (nonlinear_arith)
            requires
                k * c == p * j,
        ;
        lemma_mod_multiples_basic(j as int, p as int);
        lemma_small_mod(k, p);
        lemma_prime_divides_factor(p as int, c as int, k as int);
    } else {
        lemma_small_mod(0, p);
    }
}

/// Row `n + 1` of the sum splits along Pascal's rule.
proof fn lemma_binom_sum_step(a: int, n: nat, k: nat)
    ensures
        binom_sum(a, n + 1, k + 1) == binom_sum(a, n, k + 1) + a * binom_sum(a, n, k),
    decreases k,
{
    reveal(pow);
    if k == 0 {
        assert(pow(a, 0) == 1);
        assert(binom_sum(a, n + 1, 0) == 0);
        assert(binom_sum(a, n + 1, 1) == binom(n + 1, 0) * pow(a, 0));
        assert(binom_sum(a, n, 0) == 0);
        assert(binom_sum(a, n, 1) == binom(n, 0) * pow(a, 0));
        assert(a * binom_sum(a, n, 0) == 0) by (nonlinear_arith)
            requires
                binom_sum(a, n, 0) == 0,
        ;
    } else {
        let km = (k - 1) as nat;
        lemma_binom_sum_step(a, n, km);
        let x = pow(a, km);
        assert(pow(a, k) == a * x);
        let s0 = binom_sum(a, n, km);
        let s1 = binom_sum(a, n, k);
        let b0 = binom(n, km);
        let b1 = binom(n, k);
        assert(binom(n + 1, k) == b0 + b1);
        assert(binom_sum(a, n + 1, k + 1) == binom_sum(a, n + 1, k) + (b0 + b1) * (a * x));
        assert(binom_sum(a, n + 1, k) == s1 + a * s0);
        assert(s1 == s0 + b0 * x);
        assert(binom_sum(a, n, k + 1) == s1 + b1 * (a * x));
        assert((s1 + a * s0) + (b0 + b1) * (a * x) == (s1 + b1 * (a * x)) + a * (s0 + b0 * x))
            by (nonlinear_arith);
    }
}

/// The binomial theorem for `(a + 1)^n`.
proof fn lemma_binomial_theorem(a: int, n: nat)
    ensures
        pow(a + 1, n) == binom_sum(a, n, n + 1),
    decreases n,
{
    reveal(pow);
    if n == 0 {
        assert(pow(a + 1, 0) == 1);
        assert(pow(a, 0) == 1);
        assert(binom_sum(a, 0, 0) == 0);
        assert(binom_sum(a, 0, 1) == binom(0, 0) * pow(a, 0));
    } else {
        let m = (n - 1) as nat;
        lemma_binomial_theorem(a, m);
        lemma_binom_sum_step(a, m, n);
        lemma_binom_above(m, n);
        let s = binom_sum(a, m, n);
        assert(binom_sum(a, m, n + 1) == s + binom(m, n) * pow(a, n));
        assert(binom(m, n) * pow(a, n) == 0) by (nonlinear_arith)
            requires
                binom(m, n) == 0,
        ;
        assert(pow(a + 1, n) == (a + 1) * pow(a + 1, m));
        assert(binom_sum(a, n, n + 1) == s + a * s);
        assert((a + 1) * s == s + a * s) by (nonlinear_arith);
    }
}

/// Modulo a prime `p`, the terms of row `p` strictly inside the row vanish.
proof fn lemma_binom_sum_prime_row(a: int, p: nat, k: nat)
    requires
        is_prime(p as int),
        1 <= k <= p,
    ensures
        (binom_sum(a, p, k) - 1) % (p as int) == 0,
    decreases k,
{
    reveal(pow);
    if k == 1 {
        assert(pow(a, 0) == 1);
        assert(binom_sum(a, p, 0) == 0);
        assert(binom_sum(a, p, 1) == binom(p, 0) * pow(a, 0));
        assert(0int % (p as int) == 0);
    } else {
        let km = (k - 1) as nat;
        lemma_binom_sum_prime_row(a, p, km);
        lemma_prime_divides_binom(p, km);
        let t = binom(p, km) * pow(a, km);
        lemma_mul_mod_noop_left(binom(p, km) as int, pow(a, km), p as int);
        assert(0 * pow(a, km) == 0);
        lemma_add_mod_noop(binom_sum(a, p, km) - 1, t, p as int);
    }
}

/// `(a + 1)^p - a^p - 1` is a multiple of the prime `p`.
proof fn lemma_freshman_dream(a: int, p: nat)
    requires
        is_prime(p as int),
    ensures
        (pow(a + 1, p) - pow(a, p) - 1) % (p as int) == 0,
{
    lemma_binomial_theorem(a, p);
    lemma_binom_sum_prime_row(a, p, p);
    lemma_binom_diagonal(p);
    assert(binom_sum(a, p, p + 1) == binom_sum(a, p, p) + binom(p, p) * pow(a, p));
}

/// `a^p - a` is a multiple of the prime `p`.
proof fn lemma_fermat_multiple(a: nat, p: nat)
    requires
        is_prime(p as int),
    ensures
        (pow(a as int, p) - a) % (p as int) == 0,
    decreases a,
{
    lemma_small_mod(0, p);
    if a == 0 {
        lemma0_pow(p);
    } else {
        let b = (a - 1) as nat;
        lemma_fermat_multiple(b, p);
        lemma_freshman_dream(b as int, p);
        lemma_add_mod_noop(pow(b + 1int, p) - pow(b as int, p) - 1, pow(b as int, p) - b, p as int);
    }
}

/// Fermat's little theorem: `a^(p-1) = 1 (mod p)` for `a` not a multiple of the prime `p`.
pub proof fn lemma_fermat(a: nat, p: nat)
    requires
        is_prime(p as int),
        a % p != 0,
    ensures
        pow(a as int, (p - 1) as nat) % (p as int) == 1,
{
    reveal(pow);
    let e = (p - 1) as nat;
    let v = pow(a as int, e);
    lemma_small_mod(0, p);
    assert(a > 0);
    lemma_fermat_multiple(a, p);
    assert(pow(a as int, p) == a * v);
    lemma_pow_positive(a as int, e);
    let m = v - 1;
    assert(m * a == pow(a as int, p) - a) by (nonlinear_arith)
        requires
            pow(a as int, p) == a * v,
            m == v - 1,
    ;
    if m > 0 {
        lemma_prime_divides_factor(p as int, m, a as int);
    } else {
        assert(m == 0);
    }
    let j = m / (p as int);
    lemma_fundamental_div_mod(m, p as int);
    lemma_mod_multiples_vanish(j, 1, p as int);
    lemma_small_mod(1, p);
}

} // verus!
