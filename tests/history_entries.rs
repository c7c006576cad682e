use conf_token::error::TokenError;
use conf_token::history::{AmountCipher, History, PrimeGroup, TransferHistory};

type Pair = (u128, u128);

#[test]
fn fixed_parameters() {
    assert_eq!(<Pair as AmountCipher<u128>>::prime(), 2377);
    assert_eq!(<Pair as AmountCipher<u128>>::base(), 1234);
}

#[test]
fn encode_amount_plus_same_randomness() {
    let a = <Pair as AmountCipher<u128>>::encode_amount(1, 5, 10);
    let b = <Pair as AmountCipher<u128>>::encode_amount(1, 3, 10);
    assert_eq!(a.plus_amount(b), <Pair as AmountCipher<u128>>::encode_amount(1, 8, 10));
    assert_eq!(a.plus_amount(b), (109, 1625));
    assert_eq!(<Pair as AmountCipher<u128>>::encode_amount(77, 5, 10), (1819, 1625));
}

#[test]
fn minus_amount_undoes_plus_amount() {
    let a = <Pair as AmountCipher<u128>>::encode_amount(602, 40, 10);
    let b = <Pair as AmountCipher<u128>>::encode_amount(602, 15, 10);
    assert_eq!(a.plus_amount(b).minus_amount(b), Ok(a));
    assert_eq!(a.minus_amount((0, 1)), Err(TokenError::DivisionByZero));
}

#[test]
fn decode_with_private_key() {
    // key 1234^9 with private key 9: decoding gives 1234^5 for the amount 5
    let pk = {
        let mut v: u128 = 1;
        for _ in 0..9 {
            v = v * 1234 % 2377;
        }
        v
    };
    let c = <Pair as AmountCipher<u128>>::encode_amount(pk, 5, 10);
    assert_eq!(c.decode_amount(9), Ok(1931));
    assert_eq!((5u128, 0u128).decode_amount(3), Err(TokenError::DivisionByZero));
}

#[test]
fn change_pubkey_moves_encoding() {
    let old = 602u128;
    let new = 1u128;
    let c = <Pair as AmountCipher<u128>>::encode_amount(old, 42, 10);
    assert_eq!(c.change_pubkey(old, new, 10), Ok(<Pair as AmountCipher<u128>>::encode_amount(new, 42, 10)));
    assert_eq!(c.change_pubkey(0, new, 10), Err(TokenError::DivisionByZero));
}

#[test]
fn history_entries() {
    let h = TransferHistory::new(77, (1, 1));
    assert_eq!(h.get_pub_key(), 77);
    assert_eq!(h.compose_entry(5), (1819, 1625));
    let set = h.set_balance(5);
    assert_eq!(set, TransferHistory::new(77, (1819, 1625)));
    let up = set.increase_balance(3);
    assert_eq!(up, TransferHistory::new(77, (1819, 1625).plus_amount(h.compose_entry(3))));
    let down = up.decrease_balance(3).unwrap();
    assert_eq!(down, TransferHistory::new(77, (1819, 1625)));
}

#[test]
fn history_reset_pubkey() {
    let h = TransferHistory::new(602, (0, 0)).set_balance(42);
    let moved = h.reset_pubkey(1).unwrap();
    assert_eq!(moved.get_pub_key(), 1);
    assert_eq!(moved, TransferHistory::new(1, (0, 0)).set_balance(42));
    let zero = TransferHistory::new(0, (0, 0)).set_balance(42);
    assert_eq!(zero.reset_pubkey(1), Err(TokenError::DivisionByZero));
    assert_eq!(zero.decrease_balance(1), Err(TokenError::DivisionByZero));
}

#[test]
fn fixed_group_operations() {
    assert_eq!(<Pair as PrimeGroup<u128>>::mul(1234, 1234), 1234 * 1234 % 2377);
    assert_eq!(<Pair as PrimeGroup<u128>>::pow(1234, 10), 1625);
    assert_eq!(<Pair as PrimeGroup<u128>>::pow(1234, 0), 1);
}
