use harmonize::balances::{BalanceError, Balances, GroupedBalances};
use harmonize::types::{Address, UserId};
use harmonize::u256::U256;
use harmonize::wallet::{AssetKey, WalletError, Wallets};

fn user(tag: u8) -> UserId {
    UserId::new(vec![tag; 29])
}

fn token(tag: u8) -> Address {
    Address::new([tag; 20])
}

#[test]
fn credit_at_max_overflows_and_changes_nothing() {
    let mut b = Balances::new();
    b.credit(1, U256::max_value()).unwrap();
    let r = b.credit(1, U256::from_u64(1));
    assert!(matches!(r, Err(BalanceError::ArithmeticOverflow)));
    assert_eq!(b.get(1), Some(U256::max_value()));
}

#[test]
fn debit_from_zero_is_insufficient() {
    let mut b = Balances::new();
    let r = b.debit(7, U256::from_u64(1));
    assert!(matches!(r, Err(BalanceError::InsufficientBalance)));
}

#[test]
fn debit_to_zero_prunes_the_entry() {
    let mut b = Balances::new();
    b.credit(5, U256::from_u64(40)).unwrap();
    let left = b.debit(5, U256::from_u64(40)).unwrap();
    assert!(left.is_zero());
    assert!(b.get(5).is_none());
}

#[test]
fn grouped_store_tracks_chain_and_token() {
    let mut g = GroupedBalances::new();
    g.credit(1, &token(0x71), U256::from_u64(10)).unwrap();
    g.credit(2, &token(0x71), U256::from_u64(20)).unwrap();
    assert_eq!(g.get(1, &token(0x71)), Some(U256::from_u64(10)));
    assert_eq!(g.get(2, &token(0x71)), Some(U256::from_u64(20)));
    assert!(g.get(3, &token(0x71)).is_none());
}

#[test]
fn wallet_credit_max_then_one_overflows_state_unchanged() {
    let mut w = Wallets::new();
    let u = user(1);
    let key = AssetKey::Eth { chain_id: 1 };
    w.credit(&u, &key, U256::max_value()).unwrap();
    let r = w.credit(&u, &key, U256::from_u64(1));
    assert!(matches!(
        r,
        Err(WalletError::BalanceError(BalanceError::ArithmeticOverflow))
    ));
    assert_eq!(w.get_balance_or_default(&u, &key), U256::max_value());
}

#[test]
fn transfer_whole_balance_prunes_and_next_transfer_fails() {
    let mut w = Wallets::new();
    let u1 = user(1);
    let u2 = user(2);
    let key = AssetKey::Erc20 {
        chain_id: 11155111,
        token: token(0x51),
    };
    w.credit(&u1, &key, U256::from_u64(500)).unwrap();
    w.transfer(&u1, &u2, &key, U256::from_u64(500)).unwrap();
    assert!(w.get_balance(&u1, &key).is_none());
    assert_eq!(w.get_balance_or_default(&u2, &key), U256::from_u64(500));
    let r = w.transfer(&u1, &u2, &key, U256::from_u64(1));
    assert!(matches!(
        r,
        Err(WalletError::BalanceError(BalanceError::InsufficientBalance))
    ));
    assert!(w.get_balance(&u1, &key).is_none());
    assert_eq!(w.get_balance_or_default(&u2, &key), U256::from_u64(500));
}

#[test]
fn transfer_there_and_back_restores_both_balances() {
    let mut w = Wallets::new();
    let a = user(0xA);
    let b = user(0xB);
    let key = AssetKey::Eth { chain_id: 1 };
    w.credit(&a, &key, U256::from_u64(1000)).unwrap();
    w.credit(&b, &key, U256::from_u64(77)).unwrap();
    w.transfer(&a, &b, &key, U256::from_u64(400)).unwrap();
    w.transfer(&b, &a, &key, U256::from_u64(400)).unwrap();
    assert_eq!(w.get_balance_or_default(&a, &key), U256::from_u64(1000));
    assert_eq!(w.get_balance_or_default(&b, &key), U256::from_u64(77));
}

#[test]
fn transfer_rolls_back_when_credit_overflows() {
    let mut w = Wallets::new();
    let a = user(1);
    let b = user(2);
    let key = AssetKey::Eth { chain_id: 9 };
    w.credit(&a, &key, U256::from_u64(123)).unwrap();
    w.credit(&b, &key, U256::max_value()).unwrap();
    let r = w.transfer(&a, &b, &key, U256::from_u64(1));
    assert!(matches!(
        r,
        Err(WalletError::BalanceError(BalanceError::ArithmeticOverflow))
    ));
    assert_eq!(w.get_balance_or_default(&a, &key), U256::from_u64(123));
    assert_eq!(w.get_balance_or_default(&b, &key), U256::max_value());
}

#[test]
fn debit_without_wallet_is_not_found() {
    let mut w = Wallets::new();
    let r = w.debit(&user(3), &AssetKey::Eth { chain_id: 1 }, U256::from_u64(1));
    assert!(matches!(r, Err(WalletError::NotFound)));
}

#[test]
fn safe_transfer_moves_amount_between_cells() {
    let mut from = U256::from_u64(100);
    let mut to = U256::from_u64(7);
    harmonize::balances::safe_transfer(&mut from, &mut to, U256::from_u64(40)).unwrap();
    assert_eq!(from, U256::from_u64(60));
    assert_eq!(to, U256::from_u64(47));
    let r = harmonize::balances::safe_transfer(&mut from, &mut to, U256::from_u64(100));
    assert!(matches!(r, Err(BalanceError::InsufficientBalance)));
    assert_eq!(from, U256::from_u64(60));
    assert_eq!(to, U256::from_u64(47));
}

#[test]
fn u256_arithmetic_is_exact() {
    let a = U256::from_u128(340_282_366_920_938_463_463_374_607_431_768_211_455u128);
    let b = a.checked_add(&U256::from_u64(1)).unwrap();
    assert_eq!(b, U256 { l0: 0, l1: 0, l2: 1, l3: 0 });
    assert_eq!(b.sub(&U256::from_u64(1)), a);
    let m = U256::from_u64(1_000_000_007).checked_mul_u64(998_244_353).unwrap();
    assert_eq!(m, U256::from_u128(1_000_000_007u128 * 998_244_353u128));
    assert!(U256::max_value().checked_mul_u64(2).is_none());
    assert!(U256::from_u64(5).lt(&U256::from_u64(6)));
    assert!(!U256::from_u64(6).lt(&U256::from_u64(6)));
    assert!(U256::from_u64(6).le(&U256::from_u64(6)));
}
