//! The life of a transaction, and what a store promises of transactions.
use aicacia_db::backend_contract::{BackendCapability, TransactionContract};
use aicacia_db::error::EngineError;
use aicacia_db::transaction_lifecycle::{TransactionLifecycle, TransactionState};

#[test]
fn starts_uninitialized() {
    let lifecycle: TransactionLifecycle<u8> = TransactionLifecycle::new();
    assert_eq!(lifecycle.state(), TransactionState::Uninitialized);
}

#[test]
fn commit_without_active_keeps_uninitialized_state() {
    let mut lifecycle: TransactionLifecycle<u8> = TransactionLifecycle::new();
    assert!(lifecycle.take_for_commit().is_none());
    assert_eq!(lifecycle.state(), TransactionState::Uninitialized);
}

#[test]
fn rollback_without_active_keeps_uninitialized_state() {
    let mut lifecycle: TransactionLifecycle<u8> = TransactionLifecycle::new();
    assert!(lifecycle.take_for_rollback().is_none());
    assert_eq!(lifecycle.state(), TransactionState::Uninitialized);
}

#[test]
fn begin_transitions_to_active_and_returns_mutable_tx() {
    let mut lifecycle: TransactionLifecycle<u8> = TransactionLifecycle::new();

    let tx = lifecycle
        .transaction(|| Ok(7u8))
        .expect("begin transaction");
    *tx = 9;

    assert_eq!(lifecycle.state(), TransactionState::Active);
    assert_eq!(lifecycle.take_for_commit(), Some(9));
    assert_eq!(lifecycle.state(), TransactionState::Committed);
}

#[test]
fn rollback_after_active_transitions_to_rolled_back() {
    let mut lifecycle: TransactionLifecycle<u8> = TransactionLifecycle::new();

    lifecycle
        .transaction(|| Ok(3u8))
        .expect("begin transaction");
    assert_eq!(lifecycle.state(), TransactionState::Active);

    assert_eq!(lifecycle.take_for_rollback(), Some(3));
    assert_eq!(lifecycle.state(), TransactionState::RolledBack);
}

#[test]
fn transaction_after_commit_returns_finalized_error() {
    let mut lifecycle: TransactionLifecycle<u8> = TransactionLifecycle::new();

    lifecycle
        .transaction(|| Ok(1u8))
        .expect("begin transaction");
    let _ = lifecycle.take_for_commit();

    let error = lifecycle
        .transaction(|| Ok(2u8))
        .expect_err("transaction should be finalized");

    assert!(
        matches!(error, EngineError::SchemaMismatch(message) if message.contains("already finalized"))
    );
    assert_eq!(lifecycle.state(), TransactionState::Committed);
}

#[test]
fn transaction_after_rollback_returns_finalized_error() {
    let mut lifecycle: TransactionLifecycle<u8> = TransactionLifecycle::new();

    lifecycle
        .transaction(|| Ok(1u8))
        .expect("begin transaction");
    let _ = lifecycle.take_for_rollback();

    let error = lifecycle
        .transaction(|| Ok(2u8))
        .expect_err("transaction should be finalized");

    assert!(
        matches!(error, EngineError::SchemaMismatch(message) if message.contains("already finalized"))
    );
    assert_eq!(lifecycle.state(), TransactionState::RolledBack);
}

#[test]
fn multi_tree_atomicity_contract_validates() {
    let contract = TransactionContract::coupled_multi_tree();
    assert!(contract.validate().is_ok());
}

#[test]
fn single_tree_atomicity_contract_validates() {
    let contract = TransactionContract::single_tree();
    assert!(contract.validate().is_ok());
}

#[test]
fn invalid_contract_multi_tree_without_write_atomicity_fails() {
    let contract = TransactionContract {
        atomicity: BackendCapability::MultiTreeAtomicity,
        multi_tree_write_atomicity: false,
        schema_mutation_atomicity: true,
    };
    assert!(contract.validate().is_err());
}
