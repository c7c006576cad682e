//! The confidential balance of one account and its transitions.
use vstd::prelude::*;

use crate::cipher::{
    ct_view, encode_spec, lemma_encoding_reduced, lemma_plus_encode, lemma_switch_encode, minus_spec, plus_spec, switch_spec, CipherFunctor,
    EGICipher,
};
use crate::error::TokenError;
use crate::number_theory::is_prime;
use vstd::arithmetic::power::pow;

verus! {

/// One account's record: its public key, its randomness, the spendable balance and the
/// locked amount, both encoded for that key with that randomness.
#[derive(Debug, PartialEq, Eq, Structural)]
pub struct CipherText<T> {
    pub pubkey: T,
    pub rel: T,
    pub current: (T, T),
    pub lock: (T, T),
}

impl<T: Copy> Clone for CipherText<T> {
    fn clone(&self) -> (c: Self)
        ensures
            c == *self,
    {
        *self
    }
}

impl<T: Copy> Copy for CipherText<T> {

}

impl View for CipherText<u128> {
    type V = CipherText<int>;

    open spec fn view(&self) -> CipherText<int> {
        CipherText {
            pubkey: self.pubkey as int,
            rel: self.rel as int,
            current: ct_view(self.current),
            lock: ct_view(self.lock),
        }
    }
}

/// A new record with `b` spendable and nothing locked.
pub open spec fn make_spec(p: int, g: int, pk: int, b: nat, r: nat) -> CipherText<int> {
    CipherText {
        pubkey: pk,
        rel: r as int,
        current: encode_spec(p, g, pk, b, r),
        lock: encode_spec(p, g, pk, 0, r),
    }
}

/// The spendable balance replaced by an encoding of `b`.
pub open spec fn set_spec(p: int, g: int, s: CipherText<int>, b: nat) -> CipherText<int> {
    CipherText {
        pubkey: s.pubkey,
        rel: s.rel,
        current: encode_spec(p, g, s.pubkey, b, s.rel as nat),
        lock: s.lock,
    }
}

/// `b` moved from the spendable balance into the locked amount.
pub open spec fn lock_spec(p: int, g: int, s: CipherText<int>, b: nat) -> CipherText<int> {
    let e = encode_spec(p, g, s.pubkey, b, s.rel as nat);
    CipherText {
        pubkey: s.pubkey,
        rel: s.rel,
        current: minus_spec(p, s.current, e),
        lock: plus_spec(p, s.lock, e),
    }
}

/// The lock reset to the encoding of 0 (the unlocked state) when `b` reproduces it exactly;
/// refused otherwise.
pub open spec fn release_spec(p: int, g: int, s: CipherText<int>, b: nat) -> Result<
    CipherText<int>,
    TokenError,
> {
    if s.lock == encode_spec(p, g, s.pubkey, b, s.rel as nat) {
        Ok(
            CipherText {
                pubkey: s.pubkey,
                rel: s.rel,
                current: s.current,
                lock: encode_spec(p, g, s.pubkey, 0, s.rel as nat),
            },
        )
    } else {
        Err(TokenError::ReleaseLockFailure)
    }
}

/// Both ciphertexts moved to the key `npk`.
pub open spec fn rekey_spec(p: int, g: int, s: CipherText<int>, npk: int) -> CipherText<int> {
    CipherText {
        pubkey: npk,
        rel: s.rel,
        current: switch_spec(p, s.pubkey, npk, s.rel as nat, s.current),
        lock: switch_spec(p, s.pubkey, npk, s.rel as nat, s.lock),
    }
}

/// `delta` added to the spendable balance.
pub open spec fn increase_spec(p: int, g: int, s: CipherText<int>, delta: nat) -> CipherText<int> {
    CipherText {
        pubkey: s.pubkey,
        rel: s.rel,
        current: plus_spec(p, s.current, encode_spec(p, g, s.pubkey, delta, s.rel as nat)),
        lock: s.lock,
    }
}

/// `delta` taken from the spendable balance.
pub open spec fn decrease_spec(p: int, g: int, s: CipherText<int>, delta: nat) -> CipherText<int> {
    CipherText {
        pubkey: s.pubkey,
        rel: s.rel,
        current: minus_spec(p, s.current, encode_spec(p, g, s.pubkey, delta, s.rel as nat)),
        lock: s.lock,
    }
}

/// A result carrying a record, with the record seen as integers.
pub open spec fn result_view(r: Result<CipherText<u128>, TokenError>) -> Result<
    CipherText<int>,
    TokenError,
> {
    match r {
        Ok(v) => Ok(v@),
        Err(e) => Err(e),
    }
}

/// A freshly made record is unlocked: its lock is the encoding of 0.
pub proof fn lemma_make_unlocked(p: int, g: int, pk: int, b: nat, r: nat)
    ensures
        make_spec(p, g, pk, b, r).lock == encode_spec(p, g, pk, 0, r),
{
}

/// On an unlocked record (its lock the encoding of 0), locking `a` and then releasing `a`
/// succeeds, keeps the balance left by the lock and returns the record to the unlocked
/// state, so the cycle can be repeated; this holds when `pk^r` is 1 modulo `p`. (For any
/// other nonzero `pk^r` the locked ciphertext carries `pk^(2r)` and the release is refused;
/// for `pk^r = 0` the lock itself fails on a division by zero.)
pub proof fn lemma_lock_then_release(p: int, g: int, s: CipherText<int>, a: nat)
    requires
        p > 1,
        s.rel >= 0,
        s.lock == encode_spec(p, g, s.pubkey, 0, s.rel as nat),
        pow(s.pubkey, s.rel as nat) % p == 1,
    ensures
        ({
            let locked = lock_spec(p, g, s, a);
            release_spec(p, g, locked, a) == Ok::<CipherText<int>, TokenError>(
                CipherText { pubkey: s.pubkey, rel: s.rel, current: locked.current, lock: s.lock },
            )
        }),
{
    lemma_plus_encode(p, g, s.pubkey, 0, a, s.rel as nat);
    assert(0 + a == a);
}

/// Re-keying a record whose two ciphertexts are encodings for its key with its randomness
/// gives a record whose ciphertexts encode the same amounts for the new key, when the
/// modulus is prime and the old key is not a multiple of it.
pub proof fn lemma_switch_record(
    p: int,
    g: int,
    s: CipherText<int>,
    npk: int,
    amount: nat,
    locked: nat,
)
    requires
        is_prime(p),
        s.pubkey >= 0,
        s.pubkey % p != 0,
        s.rel >= 0,
        s.current == encode_spec(p, g, s.pubkey, amount, s.rel as nat),
        s.lock == encode_spec(p, g, s.pubkey, locked, s.rel as nat),
    ensures
        rekey_spec(p, g, s, npk) == (CipherText {
            pubkey: npk,
            rel: s.rel,
            current: encode_spec(p, g, npk, amount, s.rel as nat),
            lock: encode_spec(p, g, npk, locked, s.rel as nat),
        }),
{
    lemma_switch_encode(p, g, s.pubkey, npk, amount, s.rel as nat);
    lemma_switch_encode(p, g, s.pubkey, npk, locked, s.rel as nat);
}

/// The transitions of a confidential balance. Each returns the new record; none changes
/// the old one.
pub trait CipherBalance<B> where B: Copy, Self: core::marker::Sized {
    type Balance;

    /// A record for key `pk` and randomness `r` holding `b`, with nothing locked.
    fn make(cipher: &EGICipher, pk: B, b: B, r: B) -> Self
        requires
            cipher.wf(),
    ;

    /// Replaces the spendable balance by `b`.
    fn set(self, cipher: &EGICipher, b: B) -> Self
        requires
            cipher.wf(),
    ;

    /// Moves `b` from the spendable balance into the locked amount.
    fn lock(self, cipher: &EGICipher, b: B) -> Result<Self, TokenError>
        requires
            cipher.wf(),
    ;

    /// Clears the locked amount if it is exactly `b`.
    fn release_locked(self, cipher: &EGICipher, b: B) -> Result<Self, TokenError>
        requires
            cipher.wf(),
    ;

    /// Moves the record to the key `npk`.
    fn switch(self, cipher: &EGICipher, npk: u128) -> Result<Self, TokenError>
        requires
            cipher.wf(),
    ;

    /// Adds `delta` to the spendable balance.
    fn increase(self, cipher: &EGICipher, delta: B) -> Self
        requires
            cipher.wf(),
    ;

    /// Takes `delta` from the spendable balance.
    fn decrease(self, cipher: &EGICipher, delta: B) -> Result<Self, TokenError>
        requires
            cipher.wf(),
    ;
}

impl CipherBalance<u128> for CipherText<u128> {
    type Balance = u128;

    fn make(cipher: &EGICipher, pk: u128, b: u128, r: u128) -> (s: Self)
        ensures
            s@ == make_spec(cipher.prime as int, cipher.gamma as int, pk as int, b as nat, r as nat),
    {
        CipherText {
            pubkey: pk,
            rel: r,
            current: cipher.encode(pk, b, r),
            lock: cipher.encode(pk, 0, r),
        }
    }

    fn set(self, cipher: &EGICipher, b: u128) -> (s: Self)
        ensures
            s@ == set_spec(cipher.prime as int, cipher.gamma as int, self@, b as nat),
    {
        let current = cipher.encode(self.pubkey, b, self.rel);
        CipherText { pubkey: self.pubkey, rel: self.rel, current, lock: self.lock }
    }

    /// Fails with `DivisionByZero` when the encoding of `b` is 0, which it is only for a key
    /// that is a multiple of the modulus.
    fn lock(self, cipher: &EGICipher, b: u128) -> (r: Result<Self, TokenError>)
        ensures
            ({
                let p = cipher.prime as int;
                let g = cipher.gamma as int;
                if encode_spec(p, g, self@.pubkey, b as nat, self@.rel as nat).0 == 0 {
                    r == Err::<Self, TokenError>(TokenError::DivisionByZero)
                } else {
                    r is Ok && r->Ok_0@ == lock_spec(p, g, self@, b as nat)
                }
            }),
    {
        let e = cipher.encode(self.pubkey, b, self.rel);
        proof {
            lemma_encoding_reduced(
                cipher.prime,
                cipher.gamma as int,
                self.pubkey as int,
                b as nat,
                self.rel as nat,
                e,
            );
        }
        let current = match cipher.minus(self.current, e) {
            Ok(c) => c,
            Err(err) => {
                return Err(err);
            },
        };
        let lock = cipher.plus(self.lock, e);
        Ok(CipherText { pubkey: self.pubkey, rel: self.rel, current, lock })
    }

    /// A lock may be built from several locks, but is released as a whole, so that no
    /// further proof that the lock covers the amount is needed.
    fn release_locked(self, cipher: &EGICipher, amount: u128) -> (r: Result<Self, TokenError>)
        ensures
            result_view(r) == release_spec(
                cipher.prime as int,
                cipher.gamma as int,
                self@,
                amount as nat,
            ),
    {
        let t = cipher.encode(self.pubkey, amount, self.rel);
        if self.lock.0 == t.0 && self.lock.1 == t.1 {
            let lock = cipher.encode(self.pubkey, 0, self.rel);
            Ok(CipherText { pubkey: self.pubkey, rel: self.rel, current: self.current, lock })
        } else {
            Err(TokenError::ReleaseLockFailure)
        }
    }

    /// Re-keys both ciphertexts with the record's own randomness, so that a record encoded
    /// for the old key becomes one encoded for `npub`.
    /// Fails with `DivisionByZero` when the current key is a multiple of the modulus.
    fn switch(self, cipher: &EGICipher, npub: u128) -> (r: Result<Self, TokenError>)
        ensures
            self.pubkey % cipher.prime == 0 ==> r == Err::<Self, TokenError>(
                TokenError::DivisionByZero,
            ),
            self.pubkey % cipher.prime != 0 ==> r is Ok && r->Ok_0@ == rekey_spec(
                cipher.prime as int,
                cipher.gamma as int,
                self@,
                npub as int,
            ),
    {
        let current = match cipher.switch(self.pubkey, npub, self.rel, self.current) {
            Ok(c) => c,
            Err(err) => {
                return Err(err);
            },
        };
        let lock = match cipher.switch(self.pubkey, npub, self.rel, self.lock) {
            Ok(c) => c,
            Err(err) => {
                return Err(err);
            },
        };
        Ok(CipherText { pubkey: npub, rel: self.rel, current, lock })
    }

    fn increase(self, cipher: &EGICipher, delta: u128) -> (s: Self)
        ensures
            s@ == increase_spec(cipher.prime as int, cipher.gamma as int, self@, delta as nat),
    {
        let e = cipher.encode(self.pubkey, delta, self.rel);
        CipherText {
            pubkey: self.pubkey,
            rel: self.rel,
            current: cipher.plus(self.current, e),
            lock: self.lock,
        }
    }

    /// Fails with `DivisionByZero` when the encoding of `delta` is 0, which it is only for a
    /// key that is a multiple of the modulus.
    fn decrease(self, cipher: &EGICipher, delta: u128) -> (r: Result<Self, TokenError>)
        ensures
            ({
                let p = cipher.prime as int;
                let g = cipher.gamma as int;
                if encode_spec(p, g, self@.pubkey, delta as nat, self@.rel as nat).0 == 0 {
                    r == Err::<Self, TokenError>(TokenError::DivisionByZero)
                } else {
                    r is Ok && r->Ok_0@ == decrease_spec(p, g, self@, delta as nat)
                }
            }),
    {
        let e = cipher.encode(self.pubkey, delta, self.rel);
        proof {
            lemma_encoding_reduced(
                cipher.prime,
                cipher.gamma as int,
                self.pubkey as int,
                delta as nat,
                self.rel as nat,
                e,
            );
        }
        match cipher.minus(self.current, e) {
            Ok(current) => Ok(CipherText { pubkey: self.pubkey, rel: self.rel, current, lock: self.lock }),
            Err(err) => Err(err),
        }
    }
}

} // verus!
