//! Confidential balances over an exponential ElGamal scheme in a prime field.
pub mod balance;
pub mod cipher;
pub mod error;
pub mod history;
pub mod ledger;
pub mod number_theory;
pub mod primering;
pub mod range_proof;
