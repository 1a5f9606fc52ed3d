use ledger::errors::LedgerError;
use ledger::hasher::transaction_hash;
use ledger::mempool::Mempool;
use ledger::structures::{Transaction, TransactionInput, TransactionOutput};

fn tx(tag: u8) -> Transaction {
    Transaction {
        inputs: vec![TransactionInput { txid: [tag; 32], vout: 0, script_sig: vec![tag] }],
        outputs: vec![TransactionOutput { value: tag as u64, script_pubkey: vec![tag] }],
    }
}

#[test]
fn new_pool_is_empty() {
    let pool = Mempool::new();
    assert_eq!(pool.len(), 0);
    assert!(pool.get_transactions(10).is_empty());
}

#[test]
fn submit_then_duplicate() {
    let mut pool = Mempool::new();
    assert_eq!(pool.add_transaction(tx(1)), Ok(()));
    assert_eq!(pool.add_transaction(tx(2)), Ok(()));
    assert_eq!(pool.add_transaction(tx(1)), Err(LedgerError::DuplicateTransaction));
    assert_eq!(pool.len(), 2);
}

#[test]
fn remove_by_identity() {
    let mut pool = Mempool::new();
    pool.add_transaction(tx(1)).unwrap();
    pool.add_transaction(tx(2)).unwrap();
    let id = transaction_hash(&tx(1));
    assert_eq!(pool.remove_transaction(&id), Some(tx(1)));
    assert_eq!(pool.remove_transaction(&id), None);
    assert_eq!(pool.len(), 1);
    assert_eq!(pool.add_transaction(tx(1)), Ok(()));
    assert_eq!(pool.len(), 2);
}

#[test]
fn drain_is_bounded_and_does_not_remove() {
    let mut pool = Mempool::new();
    for tag in 0..5u8 {
        pool.add_transaction(tx(tag)).unwrap();
    }
    let all = pool.get_transactions(10);
    assert_eq!(all.len(), 5);
    let three = pool.get_transactions(3);
    assert_eq!(three.len(), 3);
    assert!(pool.get_transactions(0).is_empty());
    assert_eq!(pool.len(), 5);
    let mut ids: Vec<[u8; 32]> = all.iter().map(transaction_hash).collect();
    ids.sort();
    ids.dedup();
    assert_eq!(ids.len(), 5);
    for picked in three.iter() {
        assert!((0..5u8).any(|tag| tx(tag) == *picked));
    }
}
