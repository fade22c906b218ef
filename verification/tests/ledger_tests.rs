use token_ledger::account::Account;
use token_ledger::ledger::{Ledger, WalletError};

fn acct(byte: u8) -> Account {
    Account::new(vec![byte])
}

#[test]
fn test_initial_balance() {
    let owner = Account::anonymous();
    let mut ledger = Ledger::new();
    ledger.initialize(owner.clone());

    assert_eq!(ledger.balance_of(&owner), 0);
}

#[test]
fn test_receive_tokens() {
    let owner = Account::anonymous();
    let mut ledger = Ledger::new();
    ledger.initialize(owner.clone());

    let amount = 1000;

    ledger.receive_tokens(&owner, &owner, amount).unwrap();

    assert_eq!(ledger.balance_of(&owner), amount);
}

#[test]
fn credit_gives_exactly_the_amount_and_owner_stays_at_zero() {
    let owner = acct(1);
    let a = acct(2);
    let mut ledger = Ledger::new();
    ledger.initialize(owner.clone());

    assert_eq!(ledger.receive_tokens(&a, &a, 750), Ok(()));

    assert_eq!(ledger.balance_of(&a), 750);
    assert_eq!(ledger.balance_of(&owner), 0);
}

#[test]
fn transfer_moves_exactly_the_amount() {
    let a = acct(2);
    let b = acct(3);
    let mut ledger = Ledger::new();
    ledger.initialize(acct(1));
    ledger.receive_tokens(&a, &a, 500).unwrap();
    ledger.receive_tokens(&b, &b, 200).unwrap();

    assert_eq!(ledger.transfer(&a, &b, 300), Ok(()));

    assert_eq!(ledger.balance_of(&a), 200);
    assert_eq!(ledger.balance_of(&b), 500);
    assert_eq!(ledger.balance_of(&a) + ledger.balance_of(&b), 700);
}

#[test]
fn zero_transfer_fails_with_invalid_amount_and_changes_nothing() {
    let a = acct(2);
    let b = acct(3);
    let mut ledger = Ledger::new();
    ledger.initialize(acct(1));
    ledger.receive_tokens(&a, &a, 100).unwrap();

    assert_eq!(ledger.transfer(&a, &b, 0), Err(WalletError::InvalidAmount));

    assert_eq!(ledger.balance_of(&a), 100);
    assert_eq!(ledger.balance_of(&b), 0);
}

#[test]
fn zero_credit_fails_with_invalid_amount_and_changes_nothing() {
    let a = acct(2);
    let mut ledger = Ledger::new();
    ledger.initialize(acct(1));
    ledger.receive_tokens(&a, &a, 100).unwrap();

    assert_eq!(ledger.receive_tokens(&a, &a, 0), Err(WalletError::InvalidAmount));

    assert_eq!(ledger.balance_of(&a), 100);
}

#[test]
fn transfer_beyond_balance_fails_and_changes_nothing() {
    let a = acct(2);
    let b = acct(3);
    let mut ledger = Ledger::new();
    ledger.initialize(acct(1));
    ledger.receive_tokens(&a, &a, 100).unwrap();
    ledger.receive_tokens(&b, &b, 40).unwrap();

    assert_eq!(ledger.transfer(&a, &b, 101), Err(WalletError::InsufficientBalance));

    assert_eq!(ledger.balance_of(&a), 100);
    assert_eq!(ledger.balance_of(&b), 40);
}

#[test]
fn transfer_from_account_with_no_activity_fails() {
    let a = acct(2);
    let b = acct(3);
    let mut ledger = Ledger::new();
    ledger.initialize(acct(1));

    assert_eq!(ledger.transfer(&a, &b, 1), Err(WalletError::InsufficientBalance));

    assert_eq!(ledger.balance_of(&a), 0);
    assert_eq!(ledger.balance_of(&b), 0);
}

#[test]
fn self_transfer_succeeds_and_leaves_balance_unchanged() {
    let a = acct(2);
    let mut ledger = Ledger::new();
    ledger.initialize(acct(1));
    ledger.receive_tokens(&a, &a, 100).unwrap();

    assert_eq!(ledger.transfer(&a, &a, 60), Ok(()));

    assert_eq!(ledger.balance_of(&a), 100);
}

#[test]
fn untouched_account_has_balance_zero() {
    let mut ledger = Ledger::new();
    ledger.initialize(acct(1));
    ledger.receive_tokens(&acct(2), &acct(2), 5).unwrap();

    assert_eq!(ledger.balance_of(&acct(9)), 0);
    assert_eq!(ledger.balance(&acct(9)), 0);
}

#[test]
fn scenario_credit_then_transfer_then_insufficient() {
    let a = acct(2);
    let b = acct(3);
    let mut ledger = Ledger::new();
    ledger.initialize(acct(1));

    ledger.receive_tokens(&a, &a, 1000).unwrap();
    assert_eq!(ledger.balance_of(&a), 1000);

    assert_eq!(ledger.transfer(&a, &b, 400), Ok(()));
    assert_eq!(ledger.balance_of(&a), 600);
    assert_eq!(ledger.balance_of(&b), 400);

    assert_eq!(ledger.transfer(&a, &b, 1000), Err(WalletError::InsufficientBalance));
    assert_eq!(ledger.balance_of(&a), 600);
    assert_eq!(ledger.balance_of(&b), 400);
}

#[test]
fn full_balance_can_be_transferred() {
    let a = acct(2);
    let b = acct(3);
    let mut ledger = Ledger::new();
    ledger.initialize(acct(1));
    ledger.receive_tokens(&a, &a, u64::MAX).unwrap();

    assert_eq!(ledger.transfer(&a, &b, u64::MAX), Ok(()));

    assert_eq!(ledger.balance_of(&a), 0);
    assert_eq!(ledger.balance_of(&b), u64::MAX);
}

#[test]
fn balance_reads_the_callers_own_entry() {
    let a = acct(2);
    let b = acct(3);
    let mut ledger = Ledger::new();
    ledger.initialize(acct(1));
    ledger.receive_tokens(&a, &a, 7).unwrap();

    assert_eq!(ledger.balance(&a), 7);
    assert_eq!(ledger.balance(&b), 0);
    assert_eq!(ledger.balance_of(&a), 7);
}

#[test]
fn accounts_compare_by_their_bytes() {
    assert!(Account::new(vec![1, 2, 3]) == Account::new(vec![1, 2, 3]));
    assert!(Account::new(vec![1, 2, 3]) != Account::new(vec![1, 2, 4]));
    assert!(Account::new(vec![1, 2]) != Account::new(vec![1, 2, 3]));
    assert!(Account::anonymous() == Account::new(vec![]));
    let a = Account::new(vec![5, 6]);
    assert!(a.clone() == a);
}
