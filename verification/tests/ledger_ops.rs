use raumfi_factory::errors::Error;
use raumfi_factory::ledger::ShareLedger;

#[test]
fn mint_increases_balance_and_supply() {
    let mut ledger = ShareLedger::new();
    ledger.mint(5, 100);
    assert_eq!(ledger.balance(5), 100);
    assert_eq!(ledger.total_supply(), 100);
}

#[test]
fn supply_is_sum_of_balances_after_each_operation() {
    let mut ledger = ShareLedger::new();
    ledger.mint(1, 50);
    assert_eq!(ledger.total_supply(), ledger.balance(1) + ledger.balance(2) + ledger.balance(3));
    ledger.mint(2, 70);
    assert_eq!(ledger.total_supply(), ledger.balance(1) + ledger.balance(2) + ledger.balance(3));
    ledger.transfer(1, 3, 20).unwrap();
    assert_eq!(ledger.total_supply(), ledger.balance(1) + ledger.balance(2) + ledger.balance(3));
    ledger.burn(2, 30).unwrap();
    assert_eq!(ledger.total_supply(), ledger.balance(1) + ledger.balance(2) + ledger.balance(3));
    ledger.approve(3, 1, 15);
    ledger.transfer_from(1, 3, 2, 10).unwrap();
    assert_eq!(ledger.total_supply(), ledger.balance(1) + ledger.balance(2) + ledger.balance(3));
    assert_eq!(ledger.total_supply(), 90);
}

#[test]
fn burn_reduces_balance_and_supply() {
    let mut ledger = ShareLedger::new();
    ledger.mint(5, 100);
    ledger.burn(5, 60).unwrap();
    assert_eq!(ledger.balance(5), 40);
    assert_eq!(ledger.total_supply(), 40);
}

#[test]
fn burn_insufficient_balance_changes_nothing() {
    let mut ledger = ShareLedger::new();
    ledger.mint(5, 50);
    let r = ledger.burn(5, 51);
    assert_eq!(r, Err(Error::InsufficientBalance));
    assert_eq!(ledger.balance(5), 50);
    assert_eq!(ledger.total_supply(), 50);
}

#[test]
fn transfer_moves_balance() {
    let mut ledger = ShareLedger::new();
    ledger.mint(5, 100);
    ledger.transfer(5, 6, 40).unwrap();
    assert_eq!(ledger.balance(5), 60);
    assert_eq!(ledger.balance(6), 40);
    assert_eq!(ledger.total_supply(), 100);
}

#[test]
fn transfer_insufficient_balance_changes_nothing() {
    let mut ledger = ShareLedger::new();
    ledger.mint(5, 100);
    let r = ledger.transfer(5, 6, 101);
    assert_eq!(r, Err(Error::InsufficientBalance));
    assert_eq!(ledger.balance(5), 100);
    assert_eq!(ledger.balance(6), 0);
}

#[test]
fn transfer_to_self_keeps_balance() {
    let mut ledger = ShareLedger::new();
    ledger.mint(5, 100);
    ledger.transfer(5, 5, 30).unwrap();
    assert_eq!(ledger.balance(5), 100);
    assert_eq!(ledger.total_supply(), 100);
}

#[test]
fn approve_overwrites_earlier_grant() {
    let mut ledger = ShareLedger::new();
    ledger.approve(5, 7, 30);
    assert_eq!(ledger.allowance(5, 7), 30);
    ledger.approve(5, 7, 12);
    assert_eq!(ledger.allowance(5, 7), 12);
}

#[test]
fn transfer_from_consumes_allowance() {
    let mut ledger = ShareLedger::new();
    ledger.mint(5, 100);
    ledger.approve(5, 7, 30);
    ledger.transfer_from(7, 5, 6, 20).unwrap();
    assert_eq!(ledger.allowance(5, 7), 10);
    assert_eq!(ledger.balance(5), 80);
    assert_eq!(ledger.balance(6), 20);
    assert_eq!(ledger.total_supply(), 100);
}

#[test]
fn transfer_from_insufficient_allowance_changes_nothing() {
    let mut ledger = ShareLedger::new();
    ledger.mint(5, 100);
    ledger.approve(5, 7, 30);
    let r = ledger.transfer_from(7, 5, 6, 31);
    assert_eq!(r, Err(Error::InsufficientAllowance));
    assert_eq!(ledger.balance(5), 100);
    assert_eq!(ledger.balance(6), 0);
    assert_eq!(ledger.allowance(5, 7), 30);
}

#[test]
fn transfer_from_insufficient_balance_keeps_allowance() {
    let mut ledger = ShareLedger::new();
    ledger.mint(5, 10);
    ledger.approve(5, 7, 30);
    let r = ledger.transfer_from(7, 5, 6, 20);
    assert_eq!(r, Err(Error::InsufficientBalance));
    assert_eq!(ledger.allowance(5, 7), 30);
    assert_eq!(ledger.balance(5), 10);
    assert_eq!(ledger.balance(6), 0);
}

#[test]
fn transfer_from_unlimited_allowance_not_drawn_down() {
    let mut ledger = ShareLedger::new();
    ledger.mint(5, 100);
    ledger.approve(5, 7, u64::MAX);
    ledger.transfer_from(7, 5, 6, 40).unwrap();
    assert_eq!(ledger.allowance(5, 7), u64::MAX);
    assert_eq!(ledger.balance(5), 60);
    assert_eq!(ledger.balance(6), 40);
}

#[test]
fn unknown_holder_reads_zero() {
    let ledger = ShareLedger::new();
    assert_eq!(ledger.balance(9), 0);
    assert_eq!(ledger.allowance(9, 10), 0);
    assert_eq!(ledger.total_supply(), 0);
}
