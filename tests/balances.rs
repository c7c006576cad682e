use conf_token::balance::{CipherBalance, CipherText};
use conf_token::cipher::{CipherFunctor, EGICipher};
use conf_token::error::TokenError;
use conf_token::ledger::{CipherInfo, Module};

fn scheme() -> EGICipher {
    EGICipher::new(1234, 2377).unwrap()
}

#[test]
fn make_encodes_amount_and_empty_lock() {
    let c = scheme();
    let s = CipherText::make(&c, 77, 100, 7);
    assert_eq!(s.pubkey, 77);
    assert_eq!(s.rel, 7);
    assert_eq!(s.current, c.encode(77, 100, 7));
    assert_eq!(s.lock, c.encode(77, 0, 7));
}

#[test]
fn lock_then_release_same_amount() {
    let c = scheme();
    let locked = CipherText::make(&c, 1, 100, 7).lock(&c, 30).unwrap();
    assert_eq!(locked.current, (1114, 133));
    assert_eq!(locked.lock, c.encode(1, 30, 7));
    let released = locked.release_locked(&c, 30).unwrap();
    assert_eq!(released.current, locked.current);
    assert_eq!(released.lock, c.encode(1, 0, 7));
    assert_eq!(released.lock, (1, 133));
    assert_eq!(released.pubkey, 1);
    assert_eq!(released.rel, 7);
}

#[test]
fn release_of_other_amount_fails() {
    let c = scheme();
    let locked = CipherText::make(&c, 1, 100, 7).lock(&c, 30).unwrap();
    assert_eq!(locked.release_locked(&c, 31), Err(TokenError::ReleaseLockFailure));
    // the record is a value: the failed release left it as it was
    assert_eq!(locked.lock, (554, 133));
    assert_eq!(locked.release_locked(&c, 30).map(|s| s.lock), Ok(c.encode(1, 0, 7)));
}

#[test]
fn release_fails_when_key_power_is_not_one() {
    // 5^7 is neither 0 nor 1 modulo 2377, so the lock carries 5^14 and no amount matches it
    let c = scheme();
    let locked = CipherText::make(&c, 5, 100, 7).lock(&c, 30).unwrap();
    assert_eq!(locked.lock, (303, 133));
    assert_eq!(locked.release_locked(&c, 30), Err(TokenError::ReleaseLockFailure));
}

#[test]
fn lock_and_release_can_repeat() {
    let c = scheme();
    let mut s = CipherText::make(&c, 2376, 100, 8);
    for amount in [30u128, 5, 0, 17] {
        let locked = s.lock(&c, amount).unwrap();
        let released = locked.release_locked(&c, amount).unwrap();
        assert_eq!(released.lock, c.encode(2376, 0, 8));
        assert_eq!(released.current, locked.current);
        s = released;
    }
    assert_eq!(s.current, c.encode(2376, 48, 8));
}

#[test]
fn zero_key_cannot_be_divided_by() {
    let c = scheme();
    let s = CipherText::make(&c, 0, 100, 7);
    assert_eq!(s.lock(&c, 30), Err(TokenError::DivisionByZero));
    assert_eq!(s.decrease(&c, 30), Err(TokenError::DivisionByZero));
    assert_eq!(s.switch(&c, 1), Err(TokenError::DivisionByZero));
    let k = CipherText::make(&c, 2377, 100, 7);
    assert_eq!(k.lock(&c, 30), Err(TokenError::DivisionByZero));
    // randomness 0 makes the key factor 1, so a zero key divides fine there
    assert!(CipherText::make(&c, 0, 100, 0).lock(&c, 30).is_ok());
}

#[test]
fn repeated_locks_accumulate() {
    let c = scheme();
    let s = CipherText::make(&c, 1, 100, 7).lock(&c, 10).unwrap().lock(&c, 20).unwrap();
    assert_eq!(s.lock, c.encode(1, 30, 7));
    assert_eq!(s.current, c.encode(1, 70, 7));
}

#[test]
fn set_increase_decrease_leave_lock() {
    let c = scheme();
    let s = CipherText::make(&c, 1, 100, 7).lock(&c, 30).unwrap();
    let set = s.set(&c, 5);
    assert_eq!(set.current, c.encode(1, 5, 7));
    assert_eq!(set.lock, s.lock);
    let up = set.increase(&c, 8);
    assert_eq!(up.current, c.encode(1, 13, 7));
    assert_eq!(up.lock, s.lock);
    let down = up.decrease(&c, 13).unwrap();
    assert_eq!(down.current, c.encode(1, 0, 7));
    assert_eq!(down.lock, s.lock);
}

#[test]
fn switch_rekeys_both_ciphertexts() {
    let c = scheme();
    let s = CipherText::make(&c, 602, 100, 7).lock(&c, 30).unwrap();
    let moved = s.switch(&c, 1).unwrap();
    assert_eq!(moved.pubkey, 1);
    assert_eq!(moved.rel, 7);
    assert_eq!(moved.current, c.switch(602, 1, 7, s.current).unwrap());
    assert_eq!(moved.lock, c.switch(602, 1, 7, s.lock).unwrap());
    // once on a key whose power is 1 the lock can be released
    let fresh = CipherText::make(&c, 602, 100, 7).switch(&c, 1).unwrap().lock(&c, 30).unwrap();
    assert_eq!(fresh.current, CipherText::make(&c, 1, 70, 7).current);
}

fn module() -> Module {
    Module::initialize_token(CipherInfo(1234, 2377)).unwrap()
}

#[test]
fn initialize_checks_configuration() {
    assert_eq!(Module::initialize_primeset(&2377), Ok(2377));
    assert_eq!(Module::initialize_primeset(&2), Err(TokenError::InvalidModulus));
    assert_eq!(Module::initialize_primeset(&100), Err(TokenError::InvalidModulus));
    assert!(matches!(Module::initialize_token(CipherInfo(1234, 8)), Err(TokenError::InvalidModulus)));
    assert!(matches!(Module::initialize_token(CipherInfo(0, 2377)), Err(TokenError::InvalidGenerator)));
    assert_eq!(module().cipher, EGICipher { gamma: 1234, prime: 2377 });
    assert_eq!(CipherInfo(3000, 2377).to_cipher(), Err(TokenError::InvalidGenerator));
    assert_eq!(CipherInfo(1234, 2377).to_cipher(), Ok(EGICipher { gamma: 1234, prime: 2377 }));
}

#[test]
fn transfer_moves_locked_amount() {
    let m = module();
    let c = m.cipher;
    let src = CipherText::make(&c, 1, 100, 7).lock(&c, 30).unwrap();
    let dest = CipherText::make(&c, 1, 5, 9);
    let (src_new, dest_new) = m.transfer(src, dest, 30).unwrap();
    assert_eq!(src_new.lock, c.encode(1, 0, 7));
    assert_eq!(src_new.current, src.current);
    assert_eq!(dest_new, dest.increase(&c, 30));
}

#[test]
fn transfer_refuses_wrong_amount() {
    let m = module();
    let c = m.cipher;
    let src = CipherText::make(&c, 1, 100, 7).lock(&c, 30).unwrap();
    let dest = CipherText::make(&c, 1, 5, 9);
    assert_eq!(m.transfer(src, dest, 29), Err(TokenError::ReleaseLockFailure));
}

#[test]
fn lock_balance_accepts_matching_proof() {
    // key 602 = 1234^3, randomness 10; after locking 2268 of 15 (exponents wrap), what
    // remains is exactly the homomorphic sum of the four bits
    let m = module();
    let c = m.cipher;
    let balance = CipherText::make(&c, 602, 15, 10);
    assert_eq!(balance.current, (1832, 1625));
    let bits: Vec<(u128, u128)> = [1u128, 0, 1, 1].iter().map(|v| c.encode(602, *v, 10)).collect();
    let remain = c.minus(balance.current, c.encode(602, 2268, 10)).unwrap();
    assert_eq!(remain, (887, 1625));
    assert_eq!(m.lock_balance(balance, 2268, 5, 160, bits), balance.lock(&c, 2268));
}

#[test]
fn lock_balance_refuses_bad_proofs() {
    let m = module();
    let c = m.cipher;
    let balance = CipherText::make(&c, 602, 15, 10);
    let bits: Vec<(u128, u128)> = [1u128, 0, 1, 1].iter().map(|v| c.encode(602, *v, 10)).collect();
    assert_eq!(m.lock_balance(balance, 2268, 5, 160, Vec::new()), Err(TokenError::RangeProofFailed));
    let zero_key = CipherText::make(&c, 0, 15, 10);
    assert_eq!(m.lock_balance(zero_key, 4, 5, 160, bits.clone()), Err(TokenError::DivisionByZero));
    assert_eq!(m.lock_balance(balance, 2267, 5, 160, bits.clone()), Err(TokenError::RangeProofFailed));
    assert_eq!(m.lock_balance(balance, 2268, 5, 161, bits.clone()), Err(TokenError::RangeProofFailed));
    let mut bad = bits;
    bad[0] = c.encode(602, 3, 10);
    assert_eq!(m.lock_balance(balance, 2268, 5, 160, bad), Err(TokenError::RangeProofFailed));
}

#[test]
fn reset_and_set_pubkey() {
    let m = module();
    let c = m.cipher;
    let s = CipherText::make(&c, 602, 15, 10);
    assert_eq!(m.reset_balance(s, 9), s.set(&c, 9));
    assert_eq!(m.set_pubkey(s, 1), s.switch(&c, 1));
    let zero_key = CipherText::make(&c, 0, 15, 10);
    assert_eq!(m.set_pubkey(zero_key, 1), Err(TokenError::DivisionByZero));
}
