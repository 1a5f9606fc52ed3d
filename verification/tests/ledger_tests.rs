use ledger::block::BLOCK_VERSION;
use ledger::blockchain::{Blockchain, BLOCK_TRANSACTION_LIMIT, GENESIS_REWARD};
use ledger::difficulty::hash_meets_difficulty;
use ledger::errors::{BlockFault, LedgerError};
use ledger::hasher::{block_hash, transaction_hash};
use ledger::merkle_tree::MerkleTree;
use ledger::structures::{Block, BlockHeader, Transaction, TransactionInput, TransactionOutput};
use ledger::utxo::{UTXOSet, UTXO};

const G: &str = "Genesis Address";

fn pay(from: ([u8; 32], u32), outputs: &[(u64, &str)]) -> Transaction {
    Transaction {
        inputs: vec![TransactionInput { txid: from.0, vout: from.1, script_sig: vec![] }],
        outputs: outputs
            .iter()
            .map(|(value, to)| TransactionOutput { value: *value, script_pubkey: to.as_bytes().to_vec() })
            .collect(),
    }
}

fn genesis_txid(ledger: &Blockchain) -> [u8; 32] {
    transaction_hash(&ledger.chain()[0].transactions[0])
}

fn mine_and_add(ledger: &mut Blockchain, timestamp: i64) -> Block {
    let block = ledger.mine_block_at(timestamp).unwrap();
    assert_eq!(ledger.add_block(block.clone()), Ok(()));
    block
}

#[test]
fn genesis_state() {
    let ledger = Blockchain::with_genesis_time(1234);
    assert_eq!(ledger.chain().len(), 1);
    let genesis = &ledger.chain()[0];
    assert_eq!(genesis.header.version, BLOCK_VERSION);
    assert_eq!(genesis.header.prev_block_hash, [0u8; 32]);
    assert_eq!(genesis.header.timestamp, 1234);
    assert_eq!(genesis.header.difficulty, 0);
    assert_eq!(genesis.header.nonce, 0);
    assert_eq!(genesis.transactions.len(), 1);
    let tx = &genesis.transactions[0];
    assert!(tx.inputs.is_empty());
    assert_eq!(
        tx.outputs,
        vec![TransactionOutput { value: 50_000_000_000, script_pubkey: b"Genesis Address".to_vec() }]
    );
    assert_eq!(GENESIS_REWARD, 50_000_000_000);
    assert_eq!(genesis.header.merkle_root, transaction_hash(tx));
    assert_eq!(ledger.utxo_set().len(), 1);
    assert_eq!(
        ledger.utxo_set().get_utxo(&transaction_hash(tx), 0),
        Some(&UTXO {
            txid: transaction_hash(tx),
            vout: 0,
            amount: 50_000_000_000,
            script_pubkey: b"Genesis Address".to_vec()
        })
    );
    assert_eq!(ledger.get_balance(G), 50_000_000_000);
    assert_eq!(ledger.mempool().len(), 0);
    assert_eq!(Blockchain::create_genesis_block(1234), ledger.chain()[0]);
}

#[test]
fn new_ledger_is_stamped_with_the_clock() {
    let ledger = Blockchain::new();
    assert_eq!(ledger.chain().len(), 1);
    // after 2020-01-01, a clock that works
    assert!(ledger.chain()[0].header.timestamp > 1_577_836_800);
    assert_eq!(ledger.get_balance(G), GENESIS_REWARD);
    let other = Blockchain::with_genesis_time(ledger.chain()[0].header.timestamp);
    assert_eq!(other.chain()[0], ledger.chain()[0]);
}

#[test]
fn block_new_takes_the_clock_and_refuses_no_transactions() {
    let tx = pay(([1u8; 32], 0), &[(5, "x")]);
    let block = Block::new([3u8; 32], vec![tx.clone()], 4).unwrap();
    assert!(block.header.timestamp > 1_577_836_800);
    let same = Block::with_timestamp([3u8; 32], vec![tx.clone()], 4, block.header.timestamp).unwrap();
    assert_eq!(block, same);
    assert_eq!(
        same.header,
        BlockHeader {
            version: 1,
            prev_block_hash: [3u8; 32],
            merkle_root: transaction_hash(&tx),
            timestamp: block.header.timestamp,
            difficulty: 4,
            nonce: 0
        }
    );
    assert_eq!(Block::new([3u8; 32], vec![], 4), Err(LedgerError::EmptyTransactionSet));
    assert_eq!(Block::with_timestamp([3u8; 32], vec![], 4, 0), Err(LedgerError::EmptyTransactionSet));
    assert_eq!(Block::calculate_merkle_root(&vec![]), Err(LedgerError::EmptyTransactionSet));
}

#[test]
fn block_merkle_root_is_over_the_identities() {
    let txs = vec![pay(([1u8; 32], 0), &[(5, "x")]), pay(([2u8; 32], 0), &[(6, "y")]), pay(([3u8; 32], 1), &[])];
    let ids: Vec<[u8; 32]> = txs.iter().map(transaction_hash).collect();
    assert_eq!(Block::calculate_merkle_root(&txs).unwrap(), MerkleTree::new(&ids).unwrap().root);
    assert_eq!(Block::hash_transaction(&txs[0]), ids[0]);
}

#[test]
fn validation_rejects_unknown_input() {
    let ledger = Blockchain::with_genesis_time(0);
    let tx = pay(([9u8; 32], 0), &[(1, "A")]);
    assert_eq!(ledger.validate_transaction(&tx), Err(LedgerError::UnknownOrSpentInput));
    assert!(!ledger.is_valid_transaction(&tx));
    let wrong_index = pay((genesis_txid(&ledger), 1), &[(1, "A")]);
    assert_eq!(ledger.validate_transaction(&wrong_index), Err(LedgerError::UnknownOrSpentInput));
}

#[test]
fn validation_rejects_overspending() {
    let ledger = Blockchain::with_genesis_time(0);
    let g = genesis_txid(&ledger);
    let too_much = pay((g, 0), &[(50_000_000_001, "A")]);
    assert_eq!(ledger.validate_transaction(&too_much), Err(LedgerError::InsufficientInputValue));
    let split_too_much = pay((g, 0), &[(25_000_000_000, "A"), (25_000_000_001, "B")]);
    assert_eq!(ledger.validate_transaction(&split_too_much), Err(LedgerError::InsufficientInputValue));
    let exact = pay((g, 0), &[(25_000_000_000, "A"), (25_000_000_000, "B")]);
    assert_eq!(ledger.validate_transaction(&exact), Ok(()));
    assert!(ledger.is_valid_transaction(&exact));
    let sums_past_u64 = pay((g, 0), &[(u64::MAX, "A"), (u64::MAX, "B")]);
    assert_eq!(ledger.validate_transaction(&sums_past_u64), Err(LedgerError::InsufficientInputValue));
}

#[test]
fn unknown_input_is_reported_before_overspending() {
    let ledger = Blockchain::with_genesis_time(0);
    let tx = pay(([9u8; 32], 0), &[(u64::MAX, "A")]);
    assert_eq!(ledger.validate_transaction(&tx), Err(LedgerError::UnknownOrSpentInput));
}

#[test]
fn transaction_without_inputs_creates_nothing_from_nothing() {
    let ledger = Blockchain::with_genesis_time(0);
    let free = Transaction { inputs: vec![], outputs: vec![TransactionOutput { value: 1, script_pubkey: vec![] }] };
    assert_eq!(ledger.validate_transaction(&free), Err(LedgerError::InsufficientInputValue));
    let nothing = Transaction { inputs: vec![], outputs: vec![] };
    assert_eq!(ledger.validate_transaction(&nothing), Ok(()));
}

#[test]
fn submit_puts_valid_transactions_in_the_pool() {
    let mut ledger = Blockchain::with_genesis_time(0);
    let g = genesis_txid(&ledger);
    let tx = pay((g, 0), &[(1, "A")]);
    assert_eq!(ledger.add_transaction(&tx), Ok(()));
    assert_eq!(ledger.mempool().len(), 1);
    assert_eq!(ledger.add_transaction(&tx), Err(LedgerError::DuplicateTransaction));
    assert_eq!(ledger.mempool().len(), 1);
    let bad = pay(([9u8; 32], 0), &[(1, "A")]);
    assert_eq!(ledger.add_transaction(&bad), Err(LedgerError::UnknownOrSpentInput));
    let greedy = pay((g, 0), &[(GENESIS_REWARD + 1, "A")]);
    assert_eq!(ledger.add_transaction(&greedy), Err(LedgerError::InsufficientInputValue));
    assert_eq!(ledger.mempool().len(), 1);
    assert_eq!(ledger.utxo_set().len(), 1);
    assert_eq!(ledger.chain().len(), 1);
}

#[test]
fn add_block_rejects_a_broken_link() {
    let mut ledger = Blockchain::with_genesis_time(0);
    let tx = pay((genesis_txid(&ledger), 0), &[(1, "A")]);
    let stray = Block::with_timestamp([1u8; 32], vec![tx.clone()], 1, 10).unwrap();
    assert_eq!(ledger.validate_new_block(&stray), Err(BlockFault::BrokenChainLink));
    assert!(!ledger.is_valid_new_block(&stray));
    assert_eq!(ledger.add_block(stray), Err(LedgerError::InvalidBlock(BlockFault::BrokenChainLink)));
    assert_eq!(ledger.chain().len(), 1);
    assert_eq!(ledger.utxo_set().len(), 1);
    assert_eq!(ledger.get_balance(G), GENESIS_REWARD);
    assert_eq!(ledger.get_balance("A"), 0);
}

#[test]
fn add_block_accepts_any_block_that_names_the_tip() {
    let mut ledger = Blockchain::with_genesis_time(0);
    let tip = block_hash(&ledger.chain()[0]);
    let tx = pay((genesis_txid(&ledger), 0), &[(7, "A"), (8, "B")]);
    // no work was done on this block, and its difficulty is arbitrary
    let block = Block::with_timestamp(tip, vec![tx.clone()], 30, -5).unwrap();
    assert!(ledger.is_valid_new_block(&block));
    assert_eq!(ledger.validate_new_block(&block), Ok(()));
    assert_eq!(ledger.add_block(block.clone()), Ok(()));
    assert_eq!(ledger.chain().len(), 2);
    assert_eq!(ledger.chain()[1], block);
    assert_eq!(ledger.get_balance(G), 0);
    assert_eq!(ledger.get_balance("A"), 7);
    assert_eq!(ledger.get_balance("B"), 8);
    assert_eq!(ledger.utxo_set().len(), 2);
    let id = transaction_hash(&tx);
    assert_eq!(ledger.utxo_set().get_utxo(&id, 1).unwrap().amount, 8);
    // the same block does not follow itself
    assert_eq!(ledger.add_block(block), Err(LedgerError::InvalidBlock(BlockFault::BrokenChainLink)));
    assert_eq!(ledger.chain().len(), 2);
}

#[test]
fn inputs_are_spent_before_outputs_are_created() {
    let mut set = UTXOSet::new();
    let first = pay(([1u8; 32], 0), &[(5, "A")]);
    let first_id = transaction_hash(&first);
    // the second transaction spends the output of the first, the third one tries again
    let second = pay((first_id, 0), &[(4, "B")]);
    let third = pay((first_id, 0), &[(3, "C")]);
    let block = Block::with_timestamp([0u8; 32], vec![first, second.clone(), third.clone()], 1, 0).unwrap();
    Blockchain::update_utxo_set(&mut set, &block);
    assert_eq!(set.len(), 2);
    assert!(set.get_utxo(&first_id, 0).is_none());
    assert_eq!(set.get_utxo(&transaction_hash(&second), 0).unwrap().amount, 4);
    assert_eq!(set.get_utxo(&transaction_hash(&third), 0).unwrap().amount, 3);
}

#[test]
fn mining_needs_a_pending_transaction() {
    let mut ledger = Blockchain::with_genesis_time(0);
    assert_eq!(ledger.mine_block_at(1), Err(LedgerError::EmptyTransactionSet));
    assert_eq!(ledger.mine_block(), Err(LedgerError::EmptyTransactionSet));
    assert_eq!(ledger.chain().len(), 1);
}

#[test]
fn mined_block_is_proof_of_work_on_the_tip() {
    let mut ledger = Blockchain::with_genesis_time(0);
    let tx = pay((genesis_txid(&ledger), 0), &[(1, "A")]);
    ledger.add_transaction(&tx).unwrap();
    let block = ledger.mine_block_at(77).unwrap();
    assert_eq!(block.header.version, 1);
    assert_eq!(block.header.prev_block_hash, block_hash(&ledger.chain()[0]));
    assert_eq!(block.header.merkle_root, transaction_hash(&tx));
    assert_eq!(block.header.timestamp, 77);
    assert_eq!(block.header.difficulty, 1);
    assert_eq!(block.transactions, vec![tx]);
    assert!(hash_meets_difficulty(&block_hash(&block), 1));
    // no smaller nonce would have done
    for nonce in 0..block.header.nonce {
        let mut earlier = block.clone();
        earlier.header.nonce = nonce;
        assert!(!hash_meets_difficulty(&block_hash(&earlier), 1));
    }
    // mined transactions leave the pool, the chain waits for add_block
    assert_eq!(ledger.mempool().len(), 0);
    assert_eq!(ledger.chain().len(), 1);
    assert_eq!(ledger.get_balance(G), GENESIS_REWARD);
    assert_eq!(ledger.calculate_block_hash(&block), block_hash(&block));
    assert_eq!(ledger.calculate_transaction_hash(&block.transactions[0]), block.header.merkle_root);
}

#[test]
fn mine_block_uses_the_clock() {
    let mut ledger = Blockchain::with_genesis_time(0);
    let tx = pay((genesis_txid(&ledger), 0), &[(1, "A")]);
    ledger.add_transaction(&tx).unwrap();
    let block = ledger.mine_block().unwrap();
    assert!(block.header.timestamp > 1_577_836_800);
    assert_eq!(ledger.add_block(block), Ok(()));
    assert_eq!(ledger.get_balance("A"), 1);
}

#[test]
fn a_block_takes_at_most_the_limit() {
    let mut ledger = Blockchain::with_genesis_time(0);
    let g = genesis_txid(&ledger);
    for i in 0..13u64 {
        ledger.add_transaction(&pay((g, 0), &[(i, "A")])).unwrap();
    }
    assert_eq!(ledger.mempool().len(), 13);
    let block = ledger.mine_block_at(1).unwrap();
    assert_eq!(BLOCK_TRANSACTION_LIMIT, 10);
    assert_eq!(block.transactions.len(), 10);
    assert_eq!(ledger.mempool().len(), 3);
    let rest = ledger.mempool().get_transactions(10);
    for tx in rest.iter() {
        assert!(!block.transactions.contains(tx));
    }
}

#[test]
fn proof_of_work_can_be_exhausted() {
    let tx = pay(([1u8; 32], 0), &[(1, "A")]);
    let mut block = Block::with_timestamp([0u8; 32], vec![tx], 31, 0).unwrap();
    block.header.nonce = u32::MAX - 2;
    let start = block.clone();
    assert_eq!(Blockchain::proof_of_work(block), Err(LedgerError::ProofOfWorkExhausted));
    for nonce in (u32::MAX - 2)..=u32::MAX {
        let mut tried = start.clone();
        tried.header.nonce = nonce;
        assert!(!hash_meets_difficulty(&block_hash(&tried), 31));
    }
}

#[test]
fn proof_of_work_starts_at_the_nonce_of_the_block() {
    let tx = pay(([1u8; 32], 0), &[(1, "A")]);
    let mut block = Block::with_timestamp([0u8; 32], vec![tx], 2, 0).unwrap();
    block.header.nonce = 1000;
    let found = Blockchain::proof_of_work(block.clone()).unwrap();
    assert!(found.header.nonce >= 1000);
    assert!(hash_meets_difficulty(&block_hash(&found), 2));
    let mut same = found.clone();
    same.header.nonce = 1000;
    assert_eq!(same, block);
    for nonce in 1000..found.header.nonce {
        let mut earlier = block.clone();
        earlier.header.nonce = nonce;
        assert!(!hash_meets_difficulty(&block_hash(&earlier), 2));
    }
}

#[test]
fn double_spend_is_rejected_after_the_first_is_applied() {
    let mut ledger = Blockchain::with_genesis_time(0);
    let g = genesis_txid(&ledger);
    let first = pay((g, 0), &[(GENESIS_REWARD, "A")]);
    let second = pay((g, 0), &[(GENESIS_REWARD, "B")]);
    assert_eq!(ledger.add_transaction(&first), Ok(()));
    mine_and_add(&mut ledger, 1);
    assert_eq!(ledger.validate_transaction(&second), Err(LedgerError::UnknownOrSpentInput));
    assert_eq!(ledger.add_transaction(&second), Err(LedgerError::UnknownOrSpentInput));
    assert_eq!(ledger.add_transaction(&first), Err(LedgerError::UnknownOrSpentInput));
    assert_eq!(ledger.get_balance("A"), GENESIS_REWARD);
    assert_eq!(ledger.get_balance("B"), 0);
}

#[test]
fn chain_stays_linked() {
    let mut ledger = Blockchain::with_genesis_time(0);
    let mut from = (genesis_txid(&ledger), 0u32);
    for i in 0..12u64 {
        let tx = pay(from, &[(GENESIS_REWARD - i, "A")]);
        ledger.add_transaction(&tx).unwrap();
        mine_and_add(&mut ledger, 1000 * (i as i64 + 1));
        from = (transaction_hash(&tx), 0);
    }
    let chain = ledger.chain();
    assert_eq!(chain.len(), 13);
    for i in 1..chain.len() {
        assert_eq!(chain[i].header.prev_block_hash, block_hash(&chain[i - 1]));
    }
    // blocks came slower than twice the target: the difficulty stays at its floor
    assert_eq!(chain[10].header.difficulty, 1);
    assert_eq!(ledger.utxo_set().total_value(), (GENESIS_REWARD - 11) as u128);
}

#[test]
fn fast_blocks_raise_the_difficulty_of_the_next_window() {
    let mut ledger = Blockchain::with_genesis_time(0);
    let mut from = (genesis_txid(&ledger), 0u32);
    for i in 0..10u64 {
        let tx = pay(from, &[(GENESIS_REWARD, "A")]);
        ledger.add_transaction(&tx).unwrap();
        let block = mine_and_add(&mut ledger, i as i64 + 1);
        let expected = if i < 9 { 1 } else { 2 };
        assert_eq!(block.header.difficulty, expected);
        assert!(hash_meets_difficulty(&block_hash(&block), expected));
        from = (transaction_hash(&tx), 0);
    }
    assert_eq!(ledger.adjust_difficulty(), 2);
}

#[test]
fn live_value_never_exceeds_issued_value() {
    let mut ledger = Blockchain::with_genesis_time(0);
    let g = genesis_txid(&ledger);
    let t1 = pay((g, 0), &[(20_000_000_000, "A"), (29_000_000_000, "B")]);
    ledger.add_transaction(&t1).unwrap();
    mine_and_add(&mut ledger, 1);
    let t2 = pay((transaction_hash(&t1), 1), &[(28_000_000_000, "C")]);
    ledger.add_transaction(&t2).unwrap();
    mine_and_add(&mut ledger, 2);
    let issued: u128 = ledger
        .chain()
        .iter()
        .flat_map(|b| b.transactions.iter())
        .flat_map(|t| t.outputs.iter())
        .map(|o| o.value as u128)
        .sum();
    assert_eq!(issued, 50_000_000_000 + 49_000_000_000 + 28_000_000_000);
    let live = ledger.utxo_set().total_value();
    assert_eq!(live, 48_000_000_000);
    assert!(live <= issued);
    // live == issued - consumed
    assert_eq!(live, issued - 50_000_000_000 - 29_000_000_000);
}

#[test]
fn end_to_end() {
    let mut ledger = Blockchain::new();
    assert_eq!(ledger.get_balance(G), 50_000_000_000);
    let g = genesis_txid(&ledger);

    let first = pay((g, 0), &[(25_000_000_000, "A")]);
    assert_eq!(ledger.add_transaction(&first), Ok(()));
    let block = ledger.mine_block().unwrap();
    assert_eq!(ledger.add_block(block), Ok(()));
    assert_eq!(ledger.get_balance("A"), 25_000_000_000);
    assert_eq!(ledger.get_balance(G), 0);
    assert_eq!(ledger.utxo_set().len(), 1);
    let first_id = transaction_hash(&first);
    assert_eq!(
        ledger.utxo_set().utxos()[0],
        UTXO { txid: first_id, vout: 0, amount: 25_000_000_000, script_pubkey: b"A".to_vec() }
    );

    let second = pay((first_id, 0), &[(10_000_000_000, "B"), (14_999_000_000, "A")]);
    assert_eq!(ledger.add_transaction(&second), Ok(()));
    let block = ledger.mine_block().unwrap();
    assert_eq!(ledger.add_block(block), Ok(()));
    assert_eq!(ledger.get_balance("B"), 10_000_000_000);
    assert_eq!(ledger.get_balance("A"), 14_999_000_000);
    assert_eq!(ledger.utxo_set().total_value(), 24_999_000_000);
    assert_eq!(ledger.checked_balance("A"), Some(14_999_000_000));
    assert_eq!(ledger.chain().len(), 3);
    assert_eq!(ledger.mempool().len(), 0);
}
