//! Arithmetic modulo a prime: the field that every ciphertext lives in.
use vstd::arithmetic::div_mod::{
    lemma_mod_add_multiples_vanish, lemma_mod_bound, lemma_mul_mod_noop,
    lemma_mul_mod_noop_left, lemma_mul_mod_noop_right, lemma_small_mod, lemma_sub_mod_noop,
};
use vstd::arithmetic::mul::{lemma_mul_is_associative, lemma_mul_is_commutative};
use vstd::arithmetic::power::{
    lemma_pow0, lemma_pow1, lemma_pow_adds, lemma_pow_mod_noop, lemma_pow_multiplies,
    lemma_square_is_pow2, pow,
};
use vstd::prelude::*;

use crate::error::TokenError;
use crate::number_theory::{is_prime, lemma_fermat};

verus! {

/// `(x + y) mod p`.
pub open spec fn field_add(p: int, x: int, y: int) -> int {
    (x + y) % p
}

/// `(x - y) mod p`, always in `[0, p)`.
pub open spec fn field_sub(p: int, x: int, y: int) -> int {
    (x - y) % p
}

/// `(x * y) mod p`.
pub open spec fn field_mul(p: int, x: int, y: int) -> int {
    (x * y) % p
}

/// `x^e mod p`, with `x^0 = 1` for every `x`.
pub open spec fn field_pow(p: int, x: int, e: nat) -> int {
    pow(x, e) % p
}

/// The Fermat inverse `x^(p-2) mod p`.
pub open spec fn field_inv(p: int, x: int) -> int {
    pow(x, (p - 2) as nat) % p
}

/// `x * y^(p-2) mod p`: division by `y` when `p` is prime and `y` is not a multiple of `p`.
pub open spec fn field_div(p: int, x: int, y: int) -> int {
    (x * pow(y, (p - 2) as nat)) % p
}

/// Product of a sequence of residues, as an integer.
pub open spec fn seq_product(s: Seq<u128>) -> int
    decreases s.len(),
{
    if s.len() == 0 {
        1
    } else {
        seq_product(s.drop_last()) * s.last()
    }
}

/// Multiplication in the field is commutative.
pub proof fn lemma_field_mul_commutative(p: int, x: int, y: int)
    requires
        p > 1,
    ensures
        field_mul(p, x, y) == field_mul(p, y, x),
{
    lemma_mul_is_commutative(x, y);
}

/// Multiplication in the field is associative, with every intermediate result reduced.
pub proof fn lemma_field_mul_associative(p: int, x: int, y: int, z: int)
    requires
        p > 1,
    ensures
        field_mul(p, field_mul(p, x, y), z) == field_mul(p, x, field_mul(p, y, z)),
{
    lemma_mul_mod_noop_left(x * y, z, p);
    lemma_mul_mod_noop_right(x, y * z, p);
    lemma_mul_is_associative(x, y, z);
}

/// Exponents add: `x^(e1 + e2) = x^e1 * x^e2` in the field.
pub proof fn lemma_field_pow_adds(p: int, x: int, e1: nat, e2: nat)
    requires
        p > 1,
    ensures
        field_pow(p, x, e1 + e2) == field_mul(p, field_pow(p, x, e1), field_pow(p, x, e2)),
{
    lemma_pow_adds(x, e1, e2);
    lemma_mul_mod_noop(pow(x, e1), pow(x, e2), p);
}

/// Dividing a product by one of its factors gives back the other, for a prime modulus and a
/// divisor that is not a multiple of it.
pub proof fn lemma_field_div_mul(p: int, x: int, y: int)
    requires
        is_prime(p),
        0 <= x < p,
        y >= 0,
        y % p != 0,
    ensures
        field_div(p, field_mul(p, x, y), y) == x,
{
    let e = (p - 2) as nat;
    let w = pow(y, e);
    lemma_fermat(y as nat, p as nat);
    lemma_pow_adds(y, 1, e);
    lemma_pow1(y);
    assert((1 + e) as nat == (p - 1) as nat);
    lemma_mul_mod_noop_left(x * y, w, p);
    assert((x * y) * w == x * (y * w)) by (nonlinear_arith);
    lemma_mul_mod_noop_right(x, y * w, p);
    lemma_small_mod(x as nat, p as nat);
}

/// The inverse of a value that is not a multiple of the prime modulus multiplies with it to 1.
pub proof fn lemma_field_inverse(p: int, x: int)
    requires
        is_prime(p),
        x >= 0,
        x % p != 0,
    ensures
        field_mul(p, x, field_inv(p, x)) == 1,
{
    let e = (p - 2) as nat;
    lemma_fermat(x as nat, p as nat);
    lemma_pow_adds(x, 1, e);
    lemma_pow1(x);
    assert((1 + e) as nat == (p - 1) as nat);
    lemma_mul_mod_noop_right(x, pow(x, e), p);
}

/// Relies on primitive_types::U256 (`From<u128>`, `checked_mul`, `checked_rem`, `as_u128`):
/// the product of two `u128` values is below 2^256, so `checked_mul` never fails, and a
/// remainder by a nonzero `u128` fits back into `u128`.
#[verifier::external_body]
fn wide_mul_mod(x: u128, y: u128, m: u128) -> (r: u128)
    requires
        m > 0,
    ensures
        r == (x * y) % (m as int),
{
    let z = primitive_types::U256::from(x).checked_mul(primitive_types::U256::from(y)).unwrap();
    z.checked_rem(primitive_types::U256::from(m)).unwrap().as_u128()
}

/// Relies on primitive_types::U256 (`From<u128>`, `checked_add`, `checked_rem`, `as_u128`):
/// the sum of two `u128` values is below 2^129, and a remainder by a nonzero `u128` fits
/// back into `u128`.
#[verifier::external_body]
fn wide_add_mod(x: u128, y: u128, m: u128) -> (r: u128)
    requires
        m > 0,
    ensures
        r == (x + y) % (m as int),
{
    let z = primitive_types::U256::from(x).checked_add(primitive_types::U256::from(y)).unwrap();
    z.checked_rem(primitive_types::U256::from(m)).unwrap().as_u128()
}

/// Ring operations over a modulus. Every result is reduced into `[0, modulus)`.
pub trait PrimeRing<T> {
    /// The modulus that the operations reduce by.
    spec fn ring_modulus(&self) -> int;

    /// `y` is a multiple of the modulus, the additive identity of the ring.
    spec fn is_multiple(&self, y: T) -> bool;

    fn mul(&self, x: T, y: T) -> T
        requires
            self.ring_modulus() > 1,
    ;

    fn power(&self, x: T, y: T) -> T
        requires
            self.ring_modulus() > 1,
    ;

    fn plus(&self, x: T, y: T) -> T
        requires
            self.ring_modulus() > 1,
    ;

    fn minus(&self, x: T, y: T) -> T
        requires
            self.ring_modulus() > 1,
    ;

    /// Undefined for a multiple of the modulus, which has no inverse.
    fn inverse(&self, x: T) -> T
        requires
            self.ring_modulus() > 1,
            !self.is_multiple(x),
    ;

    /// Undefined for a divisor that is a multiple of the modulus: see `checked_div`.
    fn div(&self, x: T, y: T) -> T
        requires
            self.ring_modulus() > 1,
            !self.is_multiple(y),
    ;

    fn zero(&self) -> T;

    fn one(&self) -> T;
}

/// One step of square-and-multiply: the exponent loses its lowest bit, the base is squared,
/// and the factor for that bit moves into the table.
proof fn lemma_square_step(prod: int, acc: int, e: nat, p: int)
    requires
        p > 0,
        e > 0,
    ensures
        ({
            let factor = if e % 2 == 1 { acc } else { 1 };
            (prod * factor * pow((acc * acc) % p, e / 2)) % p == (prod * pow(acc, e)) % p
        }),
{
    let h = (e / 2) as nat;
    let bit = (e % 2) as nat;
    let factor = if e % 2 == 1 { acc } else { 1 };
    lemma_pow_adds(acc, 2 * h, bit);
    lemma_pow_multiplies(acc, 2, h);
    lemma_square_is_pow2(acc);
    assert(e == 2 * h + bit);
    if bit == 1 {
        lemma_pow1(acc);
    } else {
        lemma_pow0(acc);
    }
    assert(pow(acc, e) == pow(acc * acc, h) * factor);
    lemma_pow_mod_noop(acc * acc, h, p);
    let q = prod * factor;
    lemma_mul_mod_noop_right(q, pow((acc * acc) % p, h), p);
    lemma_mul_mod_noop_right(q, pow(acc * acc, h), p);
    let z = pow(acc * acc, h);
    assert(q * z == prod * (z * factor)) by (nonlinear_arith)
        requires
            q == prod * factor,
    ;
}

impl PrimeRing<u128> for u128 {
    open spec fn ring_modulus(&self) -> int {
        *self as int
    }

    open spec fn is_multiple(&self, y: u128) -> bool {
        y % *self == 0
    }

    fn mul(&self, x: u128, y: u128) -> (r: u128)
        ensures
            r == field_mul(*self as int, x as int, y as int),
            r < *self,
    {
        proof {
            lemma_mod_bound(x * y, *self as int);
        }
        wide_mul_mod(x, y, *self)
    }

    /// Square-and-multiply in two passes over the exponent's bits, lowest first: the first
    /// records, for each bit, the current square (bit set) or 1 (bit clear); the second
    /// multiplies the recorded factors together.
    fn power(&self, x: u128, y: u128) -> (r: u128)
        ensures
            r == field_pow(*self as int, x as int, y as nat),
            r < *self,
    {
        let p = *self;
        let mut tracks: Vec<u128> = Vec::new();
        let mut acc: u128 = x;
        let mut e: u128 = y;
        proof {
            lemma_mul_is_commutative(1, pow(x as int, y as nat));
        }
        while e > 0
            invariant
                p == *self,
                p > 1,
                (seq_product(tracks@) * pow(acc as int, e as nat)) % (p as int) == pow(
                    x as int,
                    y as nat,
                ) % (p as int),
            decreases e,
        {
            proof {
                lemma_square_step(seq_product(tracks@), acc as int, e as nat, p as int);
            }
            let ghost old_tracks = tracks@;
            if e % 2 == 1 {
                tracks.push(acc);
            } else {
                tracks.push(1);
            }
            proof {
                assert(tracks@.drop_last() == old_tracks);
            }
            acc = self.mul(acc, acc);
            e = e / 2;
        }
        proof {
            lemma_pow0(acc as int);
        }
        let mut result: u128 = 1;
        let mut i: usize = 0;
        proof {
            assert(tracks@.take(0) =~= Seq::<u128>::empty());
            lemma_small_mod(1, p as nat);
        }
        while i < tracks.len()
            invariant
                p == *self,
                p > 1,
                i <=  tracks@.len(),
                result == seq_product(tracks@.take(i as int)) % (p as int),
            decreases tracks@.len() - i,
        {
            let ghost before = result;
            result = self.mul(result, tracks[i]);
            proof {
                assert(tracks@.take(i + 1).drop_last() == tracks@.take(i as int));
                lemma_mul_mod_noop_left(
                    seq_product(tracks@.take(i as int)),
                    tracks@[i as int] as int,
                    p as int,
                );
            }
            i = i + 1;
        }
        proof {
            assert(tracks@.take(tracks@.len() as int) == tracks@);
            lemma_mod_bound(pow(x as int, y as nat), p as int);
        }
        result
    }

    fn plus(&self, x: u128, y: u128) -> (r: u128)
        ensures
            r == field_add(*self as int, x as int, y as int),
            r < *self,
    {
        proof {
            lemma_mod_bound(x + y, *self as int);
        }
        wide_add_mod(x, y, *self)
    }

    fn minus(&self, x: u128, y: u128) -> (r: u128)
        ensures
            r == field_sub(*self as int, x as int, y as int),
            r < *self,
    {
        let p = *self;
        let xr = x % p;
        let yr = y % p;
        proof {
            lemma_sub_mod_noop(x as int, y as int, p as int);
        }
        if xr >= yr {
            proof {
                lemma_small_mod((xr - yr) as nat, p as nat);
            }
            xr - yr
        } else {
            proof {
                let v = xr - yr;
                lemma_mod_add_multiples_vanish(v, p as int);
                lemma_small_mod((v + p) as nat, p as nat);
            }
            p - (yr - xr)
        }
    }

    /// The multiplicative inverse by Fermat's little theorem: `x^(p-2) mod p`.
    fn inverse(&self, x: u128) -> (r: u128)
        ensures
            r == field_inv(*self as int, x as int),
            r < *self,
    {
        self.power(x, *self - 2)
    }

    fn div(&self, x: u128, y: u128) -> (r: u128)
        ensures
            r == field_div(*self as int, x as int, y as int),
            r < *self,
    {
        let t = self.power(y, *self - 2);
        proof {
            lemma_mul_mod_noop_right(x as int, pow(y as int, (*self - 2) as nat), *self as int);
        }
        self.mul(x, t)
    }

    fn zero(&self) -> (r: u128)
        ensures
            r == 0,
    {
        0
    }

    fn one(&self) -> (r: u128)
        ensures
            r == 1,
    {
        1
    }
}

/// Division that refuses a divisor congruent to zero.
pub fn checked_div(p: u128, x: u128, y: u128) -> (r: Result<u128, TokenError>)
    requires
        p > 1,
    ensures
        y % p == 0 ==> r == Err::<u128, TokenError>(TokenError::DivisionByZero),
        y % p != 0 ==> r == Ok::<u128, TokenError>(field_div(p as int, x as int, y as int) as u128),
{
    if y % p == 0 {
        Err(TokenError::DivisionByZero)
    } else {
        Ok(p.div(x, y))
    }
}

} // verus!
