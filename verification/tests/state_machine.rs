//! Scenario tests for the per-account transaction state machine.
//!
//! Amounts are fixed-point ten-thousandths: `10_000` is one currency unit.

use payments_engine::account::{ClientAccount, ClientState};
use payments_engine::record::{Transaction, TransactionType};

fn tx(kind: TransactionType, client: u16, tx: u32, amount: i64) -> Transaction {
    Transaction { kind, client, tx, amount }
}

fn deposit(client: u16, id: u32, amount: i64) -> Transaction {
    tx(TransactionType::Deposit, client, id, amount)
}

fn withdrawal(client: u16, id: u32, amount: i64) -> Transaction {
    tx(TransactionType::Withdrawal, client, id, amount)
}

fn dispute(client: u16, id: u32) -> Transaction {
    tx(TransactionType::Dispute, client, id, 0)
}

fn resolve(client: u16, id: u32) -> Transaction {
    tx(TransactionType::Resolve, client, id, 0)
}

fn chargeback(client: u16, id: u32) -> Transaction {
    tx(TransactionType::Chargeback, client, id, 0)
}

fn snapshot(account: ClientAccount) -> ClientState {
    ClientState::from(account)
}

#[test]
fn deposits_withdrawal_and_dispute() {
    let mut account = ClientAccount::new(1);
    account.apply_transaction(deposit(1, 1, 10_000));
    account.apply_transaction(deposit(1, 2, 20_000));
    account.apply_transaction(deposit(1, 3, 20_000));
    account.apply_transaction(withdrawal(1, 4, 15_000));
    account.apply_transaction(dispute(1, 1));
    let state = snapshot(account);
    assert_eq!(state.client, 1);
    assert_eq!(state.available, 25_000);
    assert_eq!(state.held, 10_000);
    assert_eq!(state.total(), 35_000i128);
    assert!(!state.locked);
}

#[test]
fn chargeback_locks_account_and_later_deposit_is_ignored() {
    let mut account = ClientAccount::new(1);
    account.apply_transaction(deposit(1, 1, 10_000));
    account.apply_transaction(deposit(1, 2, 20_000));
    account.apply_transaction(deposit(1, 3, 20_000));
    account.apply_transaction(withdrawal(1, 4, 15_000));
    account.apply_transaction(dispute(1, 1));
    account.apply_transaction(chargeback(1, 1));
    account.apply_transaction(deposit(1, 5, 1_000_000));
    let state = snapshot(account);
    assert_eq!(state.available, 25_000);
    assert_eq!(state.held, 0);
    assert_eq!(state.total(), 25_000i128);
    assert!(state.locked);
}

#[test]
fn locked_account_ignores_every_kind() {
    let mut locked = ClientAccount::new(7);
    locked.apply_transaction(deposit(7, 1, 50_000));
    locked.apply_transaction(dispute(7, 1));
    locked.apply_transaction(chargeback(7, 1));
    let before = snapshot({
        let mut copy = ClientAccount::new(7);
        copy.apply_transaction(deposit(7, 1, 50_000));
        copy.apply_transaction(dispute(7, 1));
        copy.apply_transaction(chargeback(7, 1));
        copy
    });
    locked.apply_transaction(deposit(7, 2, 10_000));
    locked.apply_transaction(withdrawal(7, 3, 10_000));
    locked.apply_transaction(dispute(7, 1));
    locked.apply_transaction(resolve(7, 1));
    let after = snapshot(locked);
    assert_eq!(before, after);
    assert!(after.locked);
    assert_eq!(after.available, 0);
    assert_eq!(after.held, 0);
}

#[test]
fn dispute_and_resolve_release_funds() {
    let mut account = ClientAccount::new(2);
    account.apply_transaction(deposit(2, 10, 500_000));
    account.apply_transaction(dispute(2, 10));
    account.apply_transaction(resolve(2, 10));
    let state = snapshot(account);
    assert_eq!(state.available, 500_000);
    assert_eq!(state.held, 0);
    assert!(!state.locked);
}

#[test]
fn unrecognized_kind_changes_nothing() {
    let mut account = ClientAccount::new(3);
    account.apply_transaction(deposit(3, 1, 40_000));
    account.apply_transaction(tx(TransactionType::Unknown, 3, 2, 1_650_000));
    let state = snapshot(account);
    assert_eq!(state.available, 40_000);
    assert_eq!(state.held, 0);
    assert!(!state.locked);
}

#[test]
fn unrecognized_kind_on_fresh_account_leaves_initial_state() {
    let mut account = ClientAccount::new(41);
    account.apply_transaction(tx(TransactionType::Unknown, 41, 531, 1_650_000));
    let state = snapshot(account);
    assert_eq!(state, ClientState { client: 41, available: 0, held: 0, locked: false });
    assert_eq!(state.total(), 0i128);
}

#[test]
fn withdrawal_applied_iff_funds_cover_it() {
    let mut account = ClientAccount::new(4);
    account.apply_transaction(deposit(4, 1, 30_000));
    account.apply_transaction(withdrawal(4, 2, 40_000));
    let state = snapshot(account);
    assert_eq!(state.available, 30_000);

    let mut exact = ClientAccount::new(4);
    exact.apply_transaction(deposit(4, 1, 30_000));
    exact.apply_transaction(withdrawal(4, 2, 30_000));
    let exact_state = snapshot(exact);
    assert_eq!(exact_state.available, 0);
}

#[test]
fn dispute_with_insufficient_available_is_a_noop() {
    let mut account = ClientAccount::new(5);
    account.apply_transaction(deposit(5, 1, 50_000));
    account.apply_transaction(withdrawal(5, 2, 40_000));
    // The deposited funds were already withdrawn: holding 5.0 would drive
    // the available 1.0 negative, so the dispute is silently dropped.
    account.apply_transaction(dispute(5, 1));
    let state = snapshot(account);
    assert_eq!(state.available, 10_000);
    assert_eq!(state.held, 0);
    assert!(!state.locked);
}

#[test]
fn resolve_and_chargeback_of_undisputed_id_are_noops() {
    let mut account = ClientAccount::new(6);
    account.apply_transaction(deposit(6, 1, 70_000));
    account.apply_transaction(resolve(6, 1));
    account.apply_transaction(chargeback(6, 1));
    account.apply_transaction(resolve(6, 99));
    account.apply_transaction(chargeback(6, 99));
    let state = snapshot(account);
    assert_eq!(state.available, 70_000);
    assert_eq!(state.held, 0);
    assert!(!state.locked);
}

#[test]
fn duplicate_transaction_id_is_ignored() {
    let mut account = ClientAccount::new(8);
    account.apply_transaction(deposit(8, 1, 10_000));
    account.apply_transaction(deposit(8, 1, 999_999));
    account.apply_transaction(withdrawal(8, 1, 5_000));
    let state = snapshot(account);
    assert_eq!(state.available, 10_000);
}

#[test]
fn record_for_another_client_is_ignored() {
    let mut account = ClientAccount::new(9);
    account.apply_transaction(deposit(10, 1, 10_000));
    let state = snapshot(account);
    assert_eq!(state.available, 0);
    assert_eq!(state.client, 9);
}

#[test]
fn deposit_overflowing_available_is_skipped() {
    let mut account = ClientAccount::new(11);
    account.apply_transaction(deposit(11, 1, i64::MAX));
    account.apply_transaction(deposit(11, 2, 1));
    let state = snapshot(account);
    assert_eq!(state.available, i64::MAX);
    // The skipped deposit never reached the ledger, so it cannot be
    // disputed either.
    let mut disputed = ClientAccount::new(11);
    disputed.apply_transaction(deposit(11, 1, i64::MAX));
    disputed.apply_transaction(deposit(11, 2, 1));
    disputed.apply_transaction(dispute(11, 2));
    let disputed_state = snapshot(disputed);
    assert_eq!(disputed_state.held, 0);
}

#[test]
fn disputing_a_withdrawal_that_would_drive_held_negative_is_skipped() {
    let mut account = ClientAccount::new(12);
    account.apply_transaction(deposit(12, 1, 100_000));
    account.apply_transaction(withdrawal(12, 2, 30_000));
    account.apply_transaction(deposit(12, 3, 30_000));
    // Disputing the withdrawal would hold -3.0: held funds never go
    // negative, so the record is dropped.
    account.apply_transaction(dispute(12, 2));
    let state = snapshot(account);
    assert_eq!(state.available, 100_000);
    assert_eq!(state.held, 0);
}

#[test]
fn disputing_a_withdrawal_with_enough_held_funds_applies_uniformly() {
    let mut account = ClientAccount::new(13);
    account.apply_transaction(deposit(13, 1, 100_000));
    account.apply_transaction(dispute(13, 1));
    account.apply_transaction(deposit(13, 2, 50_000));
    account.apply_transaction(withdrawal(13, 4, 30_000));
    account.apply_transaction(deposit(13, 5, 20_000));
    // Disputing the withdrawal credits the account and debits held funds.
    account.apply_transaction(dispute(13, 4));
    let state = snapshot(account);
    assert_eq!(state.available, 70_000);
    assert_eq!(state.held, 70_000);
    assert_eq!(state.total(), 140_000i128);
}

#[test]
fn held_funds_and_total_stay_consistent_through_a_run() {
    let mut account = ClientAccount::new(14);
    let records = [
        deposit(14, 1, 25_000),
        deposit(14, 2, 75_000),
        dispute(14, 1),
        resolve(14, 1),
        dispute(14, 2),
        withdrawal(14, 3, 25_000),
        chargeback(14, 2),
    ];
    for record in records {
        account.apply_transaction(record);
    }
    let state = snapshot(account);
    assert!(state.held >= 0);
    assert_eq!(state.total(), state.available as i128 + state.held as i128);
    assert_eq!(state.available, 0);
    assert_eq!(state.held, 0);
    assert!(state.locked);
}
