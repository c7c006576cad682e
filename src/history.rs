//! A single-ciphertext balance under fixed parameters: modulus 2377, generator 1234, and
//! randomness 10 for every entry.
use vstd::arithmetic::div_mod::{lemma_mod_bound, lemma_small_mod};
use vstd::arithmetic::power::pow;
use vstd::prelude::*;

use crate::cipher::{
    ct_view, encode_spec, lemma_encoding_reduced, switch_spec, CipherFunctor, EGICipher,
};
use crate::error::TokenError;
use crate::primering::{checked_div, field_div, field_mul, field_pow, PrimeRing};

verus! {

/// The modulus of the fixed scheme.
pub const HISTORY_PRIME: u128 = 2377;

/// The generator of the fixed scheme.
pub const HISTORY_BASE: u128 = 1234;

/// The randomness that every entry of a history is encoded with.
pub const HISTORY_RANDOMNESS: u128 = 10;

/// Combines two entries: first components multiplied, the second entry's second component.
pub open spec fn amount_plus_spec(c: (int, int), d: (int, int)) -> (int, int) {
    ((c.0 * d.0) % (HISTORY_PRIME as int), d.1)
}

/// Takes one entry from another: first components divided, the second entry's second
/// component.
pub open spec fn amount_minus_spec(c: (int, int), d: (int, int)) -> (int, int) {
    (field_div(HISTORY_PRIME as int, c.0, d.0), d.1)
}

/// Multiplication and exponentiation in a group whose modulus the implementing type fixes.
pub trait PrimeGroup<T> {
    fn mul(x: T, y: T) -> T;

    fn pow(x: T, y: T) -> T;
}

impl PrimeGroup<u128> for (u128, u128) {
    fn mul(x: u128, y: u128) -> (r: u128)
        ensures
            r == field_mul(HISTORY_PRIME as int, x as int, y as int),
    {
        HISTORY_PRIME.mul(x, y)
    }

    fn pow(x: u128, y: u128) -> (r: u128)
        ensures
            r == field_pow(HISTORY_PRIME as int, x as int, y as nat),
    {
        HISTORY_PRIME.power(x, y)
    }
}

/// Ciphertexts of amounts under the fixed parameters.
pub trait AmountCipher<T>: Sized {
    fn prime() -> u128;

    fn base() -> T;

    /// Encodes `a` for the holder of `p_recv` with randomness `r`.
    fn encode_amount(p_recv: T, a: T, r: T) -> Self;

    /// Moves a ciphertext encoded with randomness `r` from key `old` to key `new`; fails
    /// when `old` cannot be divided by.
    fn change_pubkey(self, old: T, new: T, r: T) -> Result<Self, TokenError>;

    fn plus_amount(self, p: Self) -> Self;

    /// Fails when the first component of `p` cannot be divided by.
    fn minus_amount(self, p: Self) -> Result<Self, TokenError>;

    /// `c.0 / c.1^x`: with the private key `x`, the generator raised to the amount; fails
    /// when `c.1^x` cannot be divided by.
    fn decode_amount(self, p_recv: T) -> Result<T, TokenError>;
}

impl AmountCipher<u128> for (u128, u128) {
    fn prime() -> (r: u128)
        ensures
            r == HISTORY_PRIME,
    {
        HISTORY_PRIME
    }

    fn base() -> (r: u128)
        ensures
            r == HISTORY_BASE,
    {
        HISTORY_BASE
    }

    fn encode_amount(p_recv: u128, a: u128, r: u128) -> (c: (u128, u128))
        ensures
            ct_view(c) == encode_spec(
                HISTORY_PRIME as int,
                HISTORY_BASE as int,
                p_recv as int,
                a as nat,
                r as nat,
            ),
    {
        let cipher = EGICipher { gamma: Self::base(), prime: Self::prime() };
        cipher.encode(p_recv, a, r)
    }

    fn plus_amount(self, v: (u128, u128)) -> (c: (u128, u128))
        ensures
            ct_view(c) == amount_plus_spec(ct_view(self), ct_view(v)),
    {
        (<Self as PrimeGroup<u128>>::mul(self.0, v.0), v.1)
    }

    fn minus_amount(self, v: (u128, u128)) -> (c: Result<(u128, u128), TokenError>)
        ensures
            v.0 % HISTORY_PRIME == 0 ==> c == Err::<(u128, u128), TokenError>(
                TokenError::DivisionByZero,
            ),
            v.0 % HISTORY_PRIME != 0 ==> c is Ok && ct_view(c->Ok_0) == amount_minus_spec(
                ct_view(self),
                ct_view(v),
            ),
    {
        match checked_div(Self::prime(), self.0, v.0) {
            Ok(q) => Ok((q, v.1)),
            Err(e) => Err(e),
        }
    }

    fn decode_amount(self, x: u128) -> (r: Result<u128, TokenError>)
        ensures
            ({
                let d = field_pow(HISTORY_PRIME as int, self.1 as int, x as nat);
                &&& d == 0 ==> r == Err::<u128, TokenError>(TokenError::DivisionByZero)
                &&& d != 0 ==> r == Ok::<u128, TokenError>(
                    field_div(HISTORY_PRIME as int, self.0 as int, d) as u128,
                )
            }),
    {
        let d = <Self as PrimeGroup<u128>>::pow(self.1, x);
        proof {
            lemma_mod_bound(pow(self.1 as int, x as nat), HISTORY_PRIME as int);
            lemma_small_mod(d as nat, HISTORY_PRIME as nat);
        }
        checked_div(Self::prime(), self.0, d)
    }

    fn change_pubkey(self, old: u128, new: u128, r: u128) -> (c: Result<(u128, u128), TokenError>)
        ensures
            old % HISTORY_PRIME == 0 ==> c == Err::<(u128, u128), TokenError>(
                TokenError::DivisionByZero,
            ),
            old % HISTORY_PRIME != 0 ==> c is Ok && ct_view(c->Ok_0) == switch_spec(
                HISTORY_PRIME as int,
                old as int,
                new as int,
                r as nat,
                ct_view(self),
            ),
    {
        let cipher = EGICipher { gamma: Self::base(), prime: Self::prime() };
        cipher.switch(old, new, r, self)
    }
}

/// An account's public key and its balance as one ciphertext of the fixed scheme.
#[derive(Debug, Clone, Copy, PartialEq, Eq)]
pub struct TransferHistory {
    pub_key: u128,
    history: (u128, u128),
}

impl View for TransferHistory {
    type V = (int, (int, int));

    closed spec fn view(&self) -> (int, (int, int)) {
        (self.pub_key as int, ct_view(self.history))
    }
}

/// The entry that encodes `a` for key `pk` in the fixed scheme.
pub open spec fn entry_spec(pk: int, a: nat) -> (int, int) {
    encode_spec(HISTORY_PRIME as int, HISTORY_BASE as int, pk, a, HISTORY_RANDOMNESS as nat)
}

/// A balance kept as one ciphertext.
pub trait History<B>: Sized {
    type Balance;

    fn get_pub_key(&self) -> B;

    fn new(k: B, h: (B, B)) -> Self;

    /// Replaces the balance by `c`.
    fn set_balance(self, c: B) -> Self;

    /// Moves the balance to the key `c`.
    fn reset_pubkey(self, c: B) -> Result<Self, TokenError>;

    /// Adds `c` to the balance.
    fn increase_balance(self, c: B) -> Self;

    /// Takes `c` from the balance.
    fn decrease_balance(self, c: B) -> Result<Self, TokenError>;

    /// The entry that encodes `c` for this account's key.
    fn compose_entry(&self, c: B) -> (B, B);
}

impl History<u128> for TransferHistory {
    type Balance = u128;

    fn compose_entry(&self, a: u128) -> (c: (u128, u128))
        ensures
            ct_view(c) == entry_spec(self@.0, a as nat),
    {
        let p_key = self.get_pub_key();
        <(u128, u128) as AmountCipher<u128>>::encode_amount(p_key, a, HISTORY_RANDOMNESS)
    }

    fn new(k: u128, h: (u128, u128)) -> (s: Self)
        ensures
            s@ == (k as int, ct_view(h)),
    {
        TransferHistory { pub_key: k, history: h }
    }

    fn get_pub_key(&self) -> (k: u128)
        ensures
            k == self@.0,
    {
        self.pub_key
    }

    /// Fails with `DivisionByZero` when the current key is a multiple of the modulus.
    fn reset_pubkey(self, npub: u128) -> (r: Result<Self, TokenError>)
        ensures
            self@.0 % (HISTORY_PRIME as int) == 0 ==> r == Err::<Self, TokenError>(
                TokenError::DivisionByZero,
            ),
            self@.0 % (HISTORY_PRIME as int) != 0 ==> r is Ok && r->Ok_0@ == (
                npub as int,
                switch_spec(
                    HISTORY_PRIME as int,
                    self@.0,
                    npub as int,
                    HISTORY_RANDOMNESS as nat,
                    self@.1,
                ),
            ),
    {
        let p_key = self.get_pub_key();
        match self.history.change_pubkey(p_key, npub, HISTORY_RANDOMNESS) {
            Ok(h) => Ok(Self::new(npub, h)),
            Err(e) => Err(e),
        }
    }

    fn set_balance(self, a: u128) -> (s: Self)
        ensures
            s@ == (self@.0, entry_spec(self@.0, a as nat)),
    {
        let e = self.compose_entry(a);
        Self::new(self.get_pub_key(), e)
    }

    fn increase_balance(self, a: u128) -> (s: Self)
        ensures
            s@ == (self@.0, amount_plus_spec(self@.1, entry_spec(self@.0, a as nat))),
    {
        let e = self.compose_entry(a);
        let new_cipher = self.history.plus_amount(e);
        Self::new(self.get_pub_key(), new_cipher)
    }

    /// Fails with `DivisionByZero` when the entry for `a` is 0, which it is only for a key
    /// that is a multiple of the modulus.
    fn decrease_balance(self, a: u128) -> (r: Result<Self, TokenError>)
        ensures
            entry_spec(self@.0, a as nat).0 == 0 ==> r == Err::<Self, TokenError>(
                TokenError::DivisionByZero,
            ),
            entry_spec(self@.0, a as nat).0 != 0 ==> r is Ok && r->Ok_0@ == (
                self@.0,
                amount_minus_spec(self@.1, entry_spec(self@.0, a as nat)),
            ),
    {
        let e = self.compose_entry(a);
        proof {
            lemma_encoding_reduced(
                HISTORY_PRIME,
                HISTORY_BASE as int,
                self.pub_key as int,
                a as nat,
                HISTORY_RANDOMNESS as nat,
                e,
            );
        }
        match self.history.minus_amount(e) {
            Ok(new_cipher) => Ok(Self::new(self.get_pub_key(), new_cipher)),
            Err(err) => Err(err),
        }
    }
}

} // verus!
