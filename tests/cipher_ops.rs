use conf_token::cipher::{CipherFunctor, EGICipher};
use conf_token::error::TokenError;
use conf_token::primering::PrimeRing;
use conf_token::range_proof::CipherProof;

fn scheme() -> EGICipher {
    EGICipher::new(1234, 2377).unwrap()
}

#[test]
fn new_checks_modulus_then_generator() {
    assert_eq!(EGICipher::new(1, 2), Err(TokenError::InvalidModulus));
    assert_eq!(EGICipher::new(1, 4), Err(TokenError::InvalidModulus));
    assert_eq!(EGICipher::new(1, 0), Err(TokenError::InvalidModulus));
    assert_eq!(EGICipher::new(0, 2377), Err(TokenError::InvalidGenerator));
    assert_eq!(EGICipher::new(2377, 2377), Err(TokenError::InvalidGenerator));
    assert_eq!(EGICipher::new(1234, 2377), Ok(EGICipher { gamma: 1234, prime: 2377 }));
}

#[test]
fn encode_values() {
    let c = scheme();
    assert_eq!(c.encode(77, 5, 10), (1819, 1625));
    let p: u128 = 2377;
    assert_eq!(c.encode(77, 0, 0), (1, 1));
    assert_eq!(c.encode(77, 3, 4).1, p.power(1234, 4));
}

#[test]
fn plus_adds_amounts_for_unit_key_power() {
    let c = scheme();
    for y in [1u128, 2376] {
        let sum = c.plus(c.encode(y, 5, 10), c.encode(y, 3, 10));
        assert_eq!(sum, c.encode(y, 8, 10));
        assert_eq!(sum, (109, 1625));
    }
}

#[test]
fn plus_carries_the_key_factor_twice() {
    // 2^10 is not 1 modulo 2377, so the key factor of the sum is 2^20, not 2^10.
    let c = scheme();
    let sum = c.plus(c.encode(2, 5, 10), c.encode(2, 3, 10));
    assert_eq!(sum, (1493, 1625));
    assert_ne!(sum, c.encode(2, 8, 10));
}

#[test]
fn minus_undoes_plus() {
    let c = scheme();
    let a = c.encode(602, 40, 10);
    let b = c.encode(602, 15, 10);
    assert_eq!(c.minus(c.plus(a, b), b), Ok(a));
    assert_eq!(c.minus(a, (0, 5)), Err(TokenError::DivisionByZero));
    assert_eq!(c.minus(a, (2377, 5)), Err(TokenError::DivisionByZero));
}

#[test]
fn switch_moves_encoding_to_new_key() {
    let c = scheme();
    let p: u128 = 2377;
    let old = p.power(1234, 3);
    let new = p.power(1234, 7);
    let t = c.encode(old, 42, 7);
    assert_eq!(c.switch(old, new, 7, t), Ok(c.encode(new, 42, 7)));
    assert_eq!(c.switch(old, new, 7, t), Ok((204, 133)));
    assert_eq!(c.switch(0, new, 7, t), Err(TokenError::DivisionByZero));
}

fn bits_for(pk: u128, values: &[u128]) -> Vec<(u128, u128)> {
    let c = scheme();
    values.iter().map(|v| c.encode(pk, *v, 10)).collect()
}

#[test]
fn check_folds_from_last_part() {
    let c = scheme();
    let parts = bits_for(602, &[1, 0, 1, 1]);
    assert!(c.check(parts.clone(), (887, 1625)));
    assert!(!c.check(parts.clone(), (887, 1624)));
    assert!(!c.check(parts, (886, 1625)));
    let single = bits_for(602, &[1]);
    assert!(c.check(single.clone(), single[0]));
}

#[test]
fn bit_proof_accepts_zero_and_one() {
    // pk = 1234^3, r = 10, b = 5, s = r + 3 * r * b
    let c = scheme();
    assert!(c.bit_proof(5, 160, c.encode(602, 0, 10)));
    assert!(c.bit_proof(5, 160, c.encode(602, 1, 10)));
    assert!(!c.bit_proof(5, 160, c.encode(602, 2, 10)));
    assert!(!c.bit_proof(5, 161, c.encode(602, 0, 10)));
}

#[test]
fn within_exp_accepts_sum_of_bits() {
    let c = scheme();
    let bits = bits_for(602, &[1, 0, 1, 1]);
    assert!(c.within_exp(5, 160, (887, 1625), bits));
}

#[test]
fn within_exp_rejects_part_that_is_no_bit() {
    let c = scheme();
    let mut bits = bits_for(602, &[1, 0, 1, 1]);
    bits[2] = c.encode(602, 2, 10);
    // the parts still sum to the target, but one part is neither 0 nor 1
    assert!(c.check(bits.clone(), (1138, 1625)));
    assert!(!c.within_exp(5, 160, (1138, 1625), bits));
}

#[test]
fn within_exp_rejects_wrong_target() {
    let c = scheme();
    let bits = bits_for(602, &[1, 0, 1, 1]);
    assert!(!c.within_exp(5, 160, (888, 1625), bits));
}
