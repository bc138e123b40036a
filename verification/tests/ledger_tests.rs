use fs_blockchain::blockchain::block::Block;
use fs_blockchain::blockchain::transaction::Transaction;
use fs_blockchain::wallet::balance::{Ledger, TransactionError};

#[test]
fn unknown_account_reads_as_zero() {
    let ledger = Ledger::new();
    assert_eq!(ledger.get_balance("nobody"), 0);
}

#[test]
fn set_balance_overwrites() {
    let mut ledger = Ledger::new();
    ledger.set_balance("alice".to_string(), 50);
    assert_eq!(ledger.get_balance("alice"), 50);
    ledger.set_balance("alice".to_string(), 7);
    assert_eq!(ledger.get_balance("alice"), 7);
}

#[test]
fn apply_transaction_conserves_total() {
    let mut ledger = Ledger::new();
    ledger.set_balance("alice".to_string(), 100);
    ledger.set_balance("bob".to_string(), 100);
    let tx = Transaction::new("alice".to_string(), "bob".to_string(), 10);
    let r = ledger.apply_transaction(&tx);
    assert!(r.is_ok());
    assert_eq!(ledger.get_balance("alice"), 90);
    assert_eq!(ledger.get_balance("bob"), 110);
}

#[test]
fn apply_transaction_insufficient_funds_changes_nothing() {
    let mut ledger = Ledger::new();
    ledger.set_balance("alice".to_string(), 5);
    ledger.set_balance("bob".to_string(), 20);
    let tx = Transaction::new("alice".to_string(), "bob".to_string(), 10);
    let r = ledger.apply_transaction(&tx);
    assert_eq!(r, Err(TransactionError::InsufficientFunds));
    assert_eq!(ledger.get_balance("alice"), 5);
    assert_eq!(ledger.get_balance("bob"), 20);
}

#[test]
fn self_transfer_leaves_balance_unchanged() {
    let mut ledger = Ledger::new();
    ledger.set_balance("alice".to_string(), 30);
    let tx = Transaction::new("alice".to_string(), "alice".to_string(), 12);
    let r = ledger.apply_transaction(&tx);
    assert!(r.is_ok());
    assert_eq!(ledger.get_balance("alice"), 30);
}

#[test]
fn apply_block_applies_all_transactions_in_order() {
    let mut ledger = Ledger::new();
    ledger.set_balance("alice".to_string(), 100);
    let txs = vec![
        Transaction::new("alice".to_string(), "bob".to_string(), 40),
        Transaction::new("bob".to_string(), "carol".to_string(), 15),
    ];
    let block = Block::new(1, txs, "0".to_string());
    let r = Block::apply_block(&mut ledger, &block);
    assert!(r.is_ok());
    assert_eq!(ledger.get_balance("alice"), 60);
    assert_eq!(ledger.get_balance("bob"), 25);
    assert_eq!(ledger.get_balance("carol"), 15);
}

#[test]
fn apply_block_fails_fast_and_keeps_earlier_transactions() {
    let mut ledger = Ledger::new();
    ledger.set_balance("alice".to_string(), 100);
    let txs = vec![
        Transaction::new("alice".to_string(), "bob".to_string(), 40),
        Transaction::new("carol".to_string(), "bob".to_string(), 1),
        Transaction::new("alice".to_string(), "bob".to_string(), 5),
    ];
    let block = Block::new(1, txs, "0".to_string());
    let r = Block::apply_block(&mut ledger, &block);
    assert_eq!(r, Err(TransactionError::InsufficientFunds));
    // The first transfer stays applied; the one after the failure never ran.
    assert_eq!(ledger.get_balance("alice"), 60);
    assert_eq!(ledger.get_balance("bob"), 40);
    assert_eq!(ledger.get_balance("carol"), 0);
}
