//! The ways an operation of the token core can fail.
use vstd::prelude::*;

verus! {

/// Why an operation was refused. No refused operation changes any balance.
#[derive(Debug, Clone, Copy, PartialEq, Eq, Structural)]
pub enum TokenError {
    /// Division by a value congruent to zero.
    DivisionByZero,
    /// The declared amount does not reproduce the locked ciphertext.
    ReleaseLockFailure,
    /// A bit proof or the sum check of a range proof did not verify.
    RangeProofFailed,
    /// The modulus is not an odd number greater than 2.
    InvalidModulus,
    /// The generator is not a nonzero element of the field.
    InvalidGenerator,
}

} // verus!
