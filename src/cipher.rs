//! Exponential ElGamal over a prime field: `encode(pk, a, r) = (γ^a * pk^r, γ^r)`.
use vstd::arithmetic::div_mod::{
    lemma_mod_bound, lemma_mul_mod_noop, lemma_mul_mod_noop_left, lemma_mul_mod_noop_right,
    lemma_small_mod,
};
use vstd::arithmetic::power::{
    lemma1_pow, lemma_pow1, lemma_pow_adds, lemma_pow_distributes, lemma_pow_mod_noop, pow,
};
use vstd::prelude::*;

use crate::error::TokenError;
use crate::ledger::Module;
use crate::number_theory::{is_prime, lemma_fermat};
use crate::primering::{checked_div, field_div, PrimeRing};

verus! {

/// A ciphertext pair as integers.
pub open spec fn ct_view(c: (u128, u128)) -> (int, int) {
    (c.0 as int, c.1 as int)
}

/// `(γ^a * pk^r mod p, γ^r mod p)`.
pub open spec fn encode_spec(p: int, g: int, pk: int, a: nat, r: nat) -> (int, int) {
    ((pow(g, a) * pow(pk, r)) % p, pow(g, r) % p)
}

/// Homomorphic addition: multiply the first components, keep the first operand's second.
pub open spec fn plus_spec(p: int, c: (int, int), d: (int, int)) -> (int, int) {
    ((c.0 * d.0) % p, c.1)
}

/// Homomorphic subtraction: divide the first components, keep the first operand's second.
pub open spec fn minus_spec(p: int, c: (int, int), d: (int, int)) -> (int, int) {
    (field_div(p, c.0, d.0), c.1)
}

/// Re-keying: multiply the first component by `(new / old)^r`.
pub open spec fn switch_spec(p: int, old: int, new: int, r: nat, t: (int, int)) -> (int, int) {
    ((t.0 * pow(field_div(p, new, old), r)) % p, t.1)
}

/// `acc` combined by `plus_spec` with each of `parts`, first to last.
pub open spec fn sum_from(p: int, acc: (int, int), parts: Seq<(u128, u128)>) -> (int, int)
    decreases parts.len(),
{
    if parts.len() == 0 {
        acc
    } else {
        plus_spec(p, sum_from(p, acc, parts.drop_last()), ct_view(parts.last()))
    }
}

/// `t` is the homomorphic sum of `parts`, folded from the last part over the others in order.
pub open spec fn check_spec(p: int, parts: Seq<(u128, u128)>, t: (int, int)) -> bool {
    &&& parts.len() > 0
    &&& sum_from(p, ct_view(parts.last()), parts.drop_last()) == t
}

/// Homomorphic addition of two amounts encoded for one key with one randomness gives the
/// encoding of their sum, when `pk^r` is 0 or 1 modulo `p`. The second components are the
/// shared `γ^r` throughout. (For any other `pk^r` the first component of the sum carries
/// `pk^(2r)` instead of `pk^r`, so the two sides differ.)
pub proof fn lemma_plus_encode(p: int, g: int, pk: int, a: nat, b: nat, r: nat)
    requires
        p > 1,
        pow(pk, r) % p == 0 || pow(pk, r) % p == 1,
    ensures
        plus_spec(p, encode_spec(p, g, pk, a, r), encode_spec(p, g, pk, b, r)) == encode_spec(
            p,
            g,
            pk,
            a + b,
            r,
        ),
{
    let ga = pow(g, a);
    let gb = pow(g, b);
    let k = pow(pk, r);
    let gab = pow(g, a + b);
    lemma_pow_adds(g, a, b);
    lemma_mul_mod_noop(ga * k, gb * k, p);
    assert((ga * k) * (gb * k) == (gab * k) * k) by (nonlinear_arith)
        requires
            gab == ga * gb,
    ;
    lemma_mul_mod_noop_right(gab * k, k, p);
    lemma_mul_mod_noop_right(gab, k, p);
    if k % p == 1 {
        assert((gab * k) * 1 == gab * k);
    } else {
        assert((gab * k) * 0 == 0);
        assert(gab * 0 == 0);
        lemma_small_mod(0, p as nat);
    }
}

/// Re-keying a ciphertext encoded for `old` with randomness `r` gives the encoding of the
/// same amount for `new` with the same randomness, when the modulus is prime and `old` is
/// not a multiple of it.
pub proof fn lemma_switch_encode(p: int, g: int, old: int, new: int, a: nat, r: nat)
    requires
        is_prime(p),
        old >= 0,
        old % p != 0,
    ensures
        switch_spec(p, old, new, r, encode_spec(p, g, old, a, r)) == encode_spec(p, g, new, a, r),
{
    let e = (p - 2) as nat;
    let w = pow(old, e);
    let ga = pow(g, a);
    let o = pow(old, r);
    let n = pow(new, r);
    let q = pow(w, r);
    let delta = field_div(p, new, old);
    // (old * old^(p-2))^r = 1 modulo p
    lemma_fermat(old as nat, p as nat);
    lemma_pow_adds(old, 1, e);
    lemma_pow1(old);
    assert((1 + e) as nat == (p - 1) as nat);
    let u = old * w;
    assert(u % p == 1);
    lemma_pow_distributes(old, w, r);
    lemma_pow_mod_noop(u, r, p);
    lemma1_pow(r);
    lemma_small_mod(1, p as nat);
    assert((o * q) % p == 1);
    // the factor applied by the switch
    lemma_pow_mod_noop(new * w, r, p);
    lemma_pow_distributes(new, w, r);
    assert(pow(delta, r) % p == (n * q) % p);
    let t0 = (ga * o) % p;
    lemma_mul_mod_noop_right(t0, pow(delta, r), p);
    lemma_mul_mod_noop_right(t0, n * q, p);
    lemma_mul_mod_noop_left(ga * o, n * q, p);
    assert((ga * o) * (n * q) == (ga * n) * (o * q)) by (nonlinear_arith);
    lemma_mul_mod_noop_right(ga * n, o * q, p);
    assert((ga * n) * 1 == ga * n);
}

/// The first component of an encoding is already reduced: it is a multiple of the modulus
/// only when it is 0.
pub proof fn lemma_encoding_reduced(p: u128, g: int, pk: int, a: nat, r: nat, e: (u128, u128))
    requires
        p > 1,
        ct_view(e) == encode_spec(p as int, g, pk, a, r),
    ensures
        (e.0 % p == 0) == (e.0 == 0),
{
    lemma_mod_bound(pow(g, a) * pow(pk, r), p as int);
    lemma_small_mod(e.0 as nat, p as nat);
}

/// The parameters of the scheme: generator `gamma` and prime modulus `prime`.
#[derive(Debug, Clone, Copy, PartialEq, Eq, Structural)]
pub struct EGICipher {
    pub gamma: u128,
    pub prime: u128,
}

impl EGICipher {
    /// An odd modulus above 2 and a nonzero generator below it.
    pub open spec fn wf(self) -> bool {
        &&& self.prime > 2
        &&& self.prime % 2 == 1
        &&& 0 < self.gamma < self.prime
    }

    /// Builds the scheme, refusing a modulus that is not odd and above 2, then a generator
    /// that is not a nonzero field element.
    pub fn new(gamma: u128, prime: u128) -> (r: Result<EGICipher, TokenError>)
        ensures
            !(prime > 2 && prime % 2 == 1) ==> r == Err::<EGICipher, TokenError>(
                TokenError::InvalidModulus,
            ),
            (prime > 2 && prime % 2 == 1) && !(0 < gamma < prime) ==> r == Err::<
                EGICipher,
                TokenError,
            >(TokenError::InvalidGenerator),
            (prime > 2 && prime % 2 == 1 && 0 < gamma < prime) ==> r == Ok::<
                EGICipher,
                TokenError,
            >((EGICipher { gamma, prime })),
            r is Ok ==> r->Ok_0.wf(),
    {
        match Module::initialize_primeset(&prime) {
            Err(e) => Err(e),
            Ok(p) => {
                if 0 < gamma && gamma < p {
                    Ok(EGICipher { gamma, prime: p })
                } else {
                    Err(TokenError::InvalidGenerator)
                }
            },
        }
    }
}

/// Encoding of amounts into ciphertexts, and the operations on ciphertexts.
pub trait CipherFunctor<Key, F, T> {
    /// The parameters are usable.
    spec fn ready(&self) -> bool;

    /// Encodes `src` for the holder of `pk` with randomness `r`.
    fn encode(&self, pk: Key, src: F, r: F) -> T
        requires
            self.ready(),
    ;

    /// Whether `t` is the homomorphic sum of the parts of `proof`.
    fn check(&self, proof: Vec<T>, t: T) -> bool
        requires
            self.ready(),
            proof@.len() > 0,
    ;

    /// Moves a ciphertext from key `old` to key `new` without decoding it; fails when `old`
    /// cannot be divided by.
    fn switch(&self, old: Key, new: Key, r: F, t: T) -> Result<T, TokenError>
        requires
            self.ready(),
    ;

    fn plus(&self, src: T, target: T) -> T
        requires
            self.ready(),
    ;

    /// Fails when the first component of `target` cannot be divided by.
    fn minus(&self, src: T, target: T) -> Result<T, TokenError>
        requires
            self.ready(),
    ;
}

impl CipherFunctor<u128, u128, (u128, u128)> for EGICipher {
    open spec fn ready(&self) -> bool {
        self.wf()
    }

    fn encode(&self, pk: u128, a: u128, r: u128) -> (c: (u128, u128))
        ensures
            ct_view(c) == encode_spec(self.prime as int, self.gamma as int, pk as int, a as nat, r as nat),
    {
        let p = self.prime;
        let gamma_exp_amt = p.power(self.gamma, a);
        let pk_exp_r = p.power(pk, r);
        let gamma_exp_r = p.power(self.gamma, r);
        proof {
            lemma_mul_mod_noop(pow(self.gamma as int, a as nat), pow(pk as int, r as nat), p as int);
        }
        (p.mul(gamma_exp_amt, pk_exp_r), gamma_exp_r)
    }

    fn plus(&self, v1: (u128, u128), v2: (u128, u128)) -> (c: (u128, u128))
        ensures
            ct_view(c) == plus_spec(self.prime as int, ct_view(v1), ct_view(v2)),
    {
        (self.prime.mul(v1.0, v2.0), v1.1)
    }

    fn minus(&self, v1: (u128, u128), v2: (u128, u128)) -> (c: Result<(u128, u128), TokenError>)
        ensures
            v2.0 % self.prime == 0 ==> c == Err::<(u128, u128), TokenError>(
                TokenError::DivisionByZero,
            ),
            v2.0 % self.prime != 0 ==> c is Ok && ct_view(c->Ok_0) == minus_spec(
                self.prime as int,
                ct_view(v1),
                ct_view(v2),
            ),
    {
        match checked_div(self.prime, v1.0, v2.0) {
            Ok(q) => Ok((q, v1.1)),
            Err(e) => Err(e),
        }
    }

    /// Multiplies the first component by `(new / old)^r`, which replaces the factor `old^r` by
    /// `new^r` when `r` is the randomness that `t` was encoded with.
    fn switch(&self, old: u128, new: u128, r: u128, t: (u128, u128)) -> (c: Result<
        (u128, u128),
        TokenError,
    >)
        ensures
            old % self.prime == 0 ==> c == Err::<(u128, u128), TokenError>(
                TokenError::DivisionByZero,
            ),
            old % self.prime != 0 ==> c is Ok && ct_view(c->Ok_0) == switch_spec(
                self.prime as int,
                old as int,
                new as int,
                r as nat,
                ct_view(t),
            ),
    {
        let p = self.prime;
        let delta = match checked_div(p, new, old) {
            Ok(q) => q,
            Err(e) => {
                return Err(e);
            },
        };
        let f = p.power(delta, r);
        proof {
            lemma_mul_mod_noop_right(t.0 as int, pow(delta as int, r as nat), p as int);
        }
        Ok((p.mul(t.0, f), t.1))
    }

    fn check(&self, proof: Vec<(u128, u128)>, t: (u128, u128)) -> (ok: bool)
        ensures
            ok == check_spec(self.prime as int, proof@, ct_view(t)),
    {
        let n = proof.len();
        let last = proof[n - 1];
        let mut s = last;
        let mut i: usize = 0;
        proof {
            assert(proof@.drop_last().take(0) =~= Seq::<(u128, u128)>::empty());
        }
        while i < n - 1
            invariant
                self.wf(),
                n == proof@.len(),
                n > 0,
                last == proof@[n - 1],
                i <= n - 1,
                ct_view(s) == sum_from(self.prime as int, ct_view(last), proof@.drop_last().take(i as int)),
            decreases n - 1 - i,
        {
            s = self.plus(s, proof[i]);
            proof {
                let parts = proof@.drop_last();
                assert(parts.take(i + 1).drop_last() =~= parts.take(i as int));
                assert(parts.take(i + 1).last() == proof@[i as int]);
            }
            i = i + 1;
        }
        proof {
            assert(proof@.drop_last().take(n - 1) =~= proof@.drop_last());
        }
        s.0 == t.0 && s.1 == t.1
    }
}

} // verus!
