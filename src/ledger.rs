//! The ledger-facing actions: each takes the stored records and returns the ones to store,
//! or an error and nothing to store.
use vstd::prelude::*;

use crate::balance::{
    increase_spec, lock_spec, rekey_spec, release_spec, set_spec, CipherBalance, CipherText,
};
use crate::cipher::{encode_spec, lemma_encoding_reduced, minus_spec, CipherFunctor, EGICipher};
use crate::error::TokenError;
use crate::range_proof::{within_exp_spec, CipherProof};

verus! {

/// The stored configuration of the scheme: generator, then modulus.
#[derive(Debug, Clone, Copy, PartialEq, Eq, Structural)]
pub struct CipherInfo(pub u128, pub u128);

/// The configuration is usable: an odd modulus above 2 and a nonzero generator below it.
pub open spec fn config_ok(gamma: u128, prime: u128) -> bool {
    prime > 2 && prime % 2 == 1 && 0 < gamma < prime
}

impl CipherInfo {
    /// The scheme that this configuration describes.
    pub fn to_cipher(self) -> (r: Result<EGICipher, TokenError>)
        ensures
            !(self.1 > 2 && self.1 % 2 == 1) ==> r == Err::<EGICipher, TokenError>(
                TokenError::InvalidModulus,
            ),
            (self.1 > 2 && self.1 % 2 == 1) && !(0 < self.0 < self.1) ==> r == Err::<
                EGICipher,
                TokenError,
            >(TokenError::InvalidGenerator),
            config_ok(self.0, self.1) ==> r == Ok::<EGICipher, TokenError>(
                (EGICipher { gamma: self.0, prime: self.1 }),
            ),
    {
        EGICipher::new(self.0, self.1)
    }
}

/// The token core as the dispatch layer sees it: the scheme's parameters, fixed at genesis.
pub struct Module {
    pub cipher: EGICipher,
}

impl Module {
    /// Accepts a configured modulus if it is odd and above 2; primality is the configuration's
    /// responsibility.
    pub fn initialize_primeset(prime: &u128) -> (r: Result<u128, TokenError>)
        ensures
            (*prime > 2 && *prime % 2 == 1) ==> r == Ok::<u128, TokenError>(*prime),
            !(*prime > 2 && *prime % 2 == 1) ==> r == Err::<u128, TokenError>(
                TokenError::InvalidModulus,
            ),
    {
        if *prime > 2 && *prime % 2 == 1 {
            Ok(*prime)
        } else {
            Err(TokenError::InvalidModulus)
        }
    }

    /// Sets the core up from the genesis configuration.
    pub fn initialize_token(info: CipherInfo) -> (r: Result<Module, TokenError>)
        ensures
            !(info.1 > 2 && info.1 % 2 == 1) ==> r is Err && r->Err_0
                == TokenError::InvalidModulus,
            (info.1 > 2 && info.1 % 2 == 1) && !(0 < info.0 < info.1) ==> r is Err && r->Err_0
                == TokenError::InvalidGenerator,
            config_ok(info.0, info.1) ==> r is Ok && r->Ok_0.cipher == (EGICipher {
                gamma: info.0,
                prime: info.1,
            }),
            r is Ok ==> r->Ok_0.cipher.wf(),
    {
        match info.to_cipher() {
            Ok(cipher) => Ok(Module { cipher }),
            Err(e) => Err(e),
        }
    }

    /// Pays the amount locked in `src` to `dest`: `src` gives up its lock, which must be
    /// exactly `amount`, and `dest` gains `amount`. Either both new records or an error.
    pub fn transfer(&self, src: CipherText<u128>, dest: CipherText<u128>, amount: u128) -> (r:
        Result<(CipherText<u128>, CipherText<u128>), TokenError>)
        requires
            self.cipher.wf(),
        ensures
            ({
                let p = self.cipher.prime as int;
                let g = self.cipher.gamma as int;
                match release_spec(p, g, src@, amount as nat) {
                    Ok(released) => r is Ok && r->Ok_0.0@ == released && r->Ok_0.1@
                        == increase_spec(p, g, dest@, amount as nat),
                    Err(e) => r is Err && r->Err_0 == e,
                }
            }),
    {
        match src.release_locked(&self.cipher, amount) {
            Ok(src_new) => {
                let dest_new = dest.increase(&self.cipher, amount);
                Ok((src_new, dest_new))
            },
            Err(e) => Err(e),
        }
    }

    /// Locks `amount` of `balance` once the range proof shows that what remains spendable
    /// is the sum of the parts of `proof`, each of which encodes 0 or 1. Fails with
    /// `DivisionByZero` when the encoding of `amount` is 0, which it is only for a key that
    /// is a multiple of the modulus.
    pub fn lock_balance(
        &self,
        balance: CipherText<u128>,
        amount: u128,
        b: u128,
        s: u128,
        proof: Vec<(u128, u128)>,
    ) -> (r: Result<CipherText<u128>, TokenError>)
        requires
            self.cipher.wf(),
        ensures
            ({
                let p = self.cipher.prime as int;
                let g = self.cipher.gamma as int;
                let e = encode_spec(p, g, balance@.pubkey, amount as nat, balance@.rel as nat);
                let remain = minus_spec(p, balance@.current, e);
                if e.0 == 0 {
                    r is Err && r->Err_0 == TokenError::DivisionByZero
                } else if proof@.len() > 0 && within_exp_spec(
                    p,
                    g,
                    b as nat,
                    s as nat,
                    remain,
                    proof@,
                ) {
                    r is Ok && r->Ok_0@ == lock_spec(p, g, balance@, amount as nat)
                } else {
                    r is Err && r->Err_0 == TokenError::RangeProofFailed
                }
            }),
    {
        let delta = self.cipher.encode(balance.pubkey, amount, balance.rel);
        proof {
            lemma_encoding_reduced(
                self.cipher.prime,
                self.cipher.gamma as int,
                balance.pubkey as int,
                amount as nat,
                balance.rel as nat,
                delta,
            );
        }
        let remain = match self.cipher.minus(balance.current, delta) {
            Ok(c) => c,
            Err(e) => {
                return Err(e);
            },
        };
        if proof.len() == 0 {
            return Err(TokenError::RangeProofFailed);
        }
        if self.cipher.within_exp(b, s, remain, proof) {
            balance.lock(&self.cipher, amount)
        } else {
            Err(TokenError::RangeProofFailed)
        }
    }

    /// Sets the spendable balance of `balance` to `amount`.
    pub fn reset_balance(&self, balance: CipherText<u128>, amount: u128) -> (r: CipherText<u128>)
        requires
            self.cipher.wf(),
        ensures
            r@ == set_spec(self.cipher.prime as int, self.cipher.gamma as int, balance@, amount as nat),
    {
        balance.set(&self.cipher, amount)
    }

    /// Moves `balance` to the public key `key`; fails with `DivisionByZero` when its current
    /// key is a multiple of the modulus.
    pub fn set_pubkey(&self, balance: CipherText<u128>, key: u128) -> (r: Result<
        CipherText<u128>,
        TokenError,
    >)
        requires
            self.cipher.wf(),
        ensures
            balance.pubkey % self.cipher.prime == 0 ==> r is Err && r->Err_0
                == TokenError::DivisionByZero,
            balance.pubkey % self.cipher.prime != 0 ==> r is Ok && r->Ok_0@ == rekey_spec(
                self.cipher.prime as int,
                self.cipher.gamma as int,
                balance@,
                key as int,
            ),
    {
        balance.switch(&self.cipher, key)
    }
}

} // verus!
