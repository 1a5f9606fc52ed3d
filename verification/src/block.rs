//! Building a block over a list of transactions.

use crate::errors::LedgerError;
use crate::hasher::{transaction_hash, transaction_id};
use crate::merkle_tree::{digests_view, merkle_root, MerkleTree};
use crate::structures::{
    transactions_view, Block, BlockHeader, BlockHeaderView, BlockView, Transaction,
    TransactionView,
};
use vstd::prelude::*;

verus! {

/// The version that every block of this ledger carries.
pub const BLOCK_VERSION: i32 = 1;

/// The identities of the transactions, in their order.
pub open spec fn transaction_ids(txs: Seq<TransactionView>) -> Seq<Seq<u8>> {
    Seq::new(txs.len(), |i: int| transaction_id(txs[i]))
}

/// The Merkle root that commits to the transactions of a block.
pub open spec fn block_merkle_root(txs: Seq<TransactionView>) -> Seq<u8> {
    merkle_root(transaction_ids(txs))
}

/// The block over `txs` that follows the block with digest `prev`, before
/// any work was done on it: its nonce is zero.
pub open spec fn candidate_block(
    prev: Seq<u8>,
    txs: Seq<TransactionView>,
    difficulty: u32,
    timestamp: i64,
) -> BlockView {
    BlockView {
        header: BlockHeaderView {
            version: BLOCK_VERSION,
            prev_block_hash: prev,
            merkle_root: block_merkle_root(txs),
            timestamp,
            difficulty,
            nonce: 0,
        },
        transactions: txs,
    }
}

/// Calls `chrono::Utc::now` and then `DateTime::timestamp`: the seconds
/// since the Unix epoch by the system clock. The number depends on when the
/// call is made, so nothing is promised of it. `Utc::now` panics where the
/// system clock stands before the epoch.
#[verifier::external_body]
pub(crate) fn current_timestamp() -> i64 {
    chrono::Utc::now().timestamp()
}

impl Block {
    /// A candidate block over `transactions`, stamped with the current time.
    /// Fails where there is no transaction.
    pub fn new(prev_block_hash: [u8; 32], transactions: Vec<Transaction>, difficulty: u32) -> (r:
        Result<Block, LedgerError>)
        ensures
            match r {
                Ok(block) => transactions@.len() > 0 && block@ == candidate_block(
                    prev_block_hash@,
                    transactions_view(transactions@),
                    difficulty,
                    block.header.timestamp,
                ),
                Err(e) => e == LedgerError::EmptyTransactionSet && transactions@.len() == 0,
            },
    {
        let timestamp = current_timestamp();
        Block::with_timestamp(prev_block_hash, transactions, difficulty, timestamp)
    }

    /// A candidate block over `transactions`, stamped with `timestamp`.
    /// Fails where there is no transaction.
    pub fn with_timestamp(
        prev_block_hash: [u8; 32],
        transactions: Vec<Transaction>,
        difficulty: u32,
        timestamp: i64,
    ) -> (r: Result<Block, LedgerError>)
        ensures
            match r {
                Ok(block) => transactions@.len() > 0 && block@ == candidate_block(
                    prev_block_hash@,
                    transactions_view(transactions@),
                    difficulty,
                    timestamp,
                ),
                Err(e) => e == LedgerError::EmptyTransactionSet && transactions@.len() == 0,
            },
    {
        let merkle_root = match Block::calculate_merkle_root(&transactions) {
            Ok(root) => root,
            Err(e) => { return Err(e); },
        };
        Ok(
            Block {
                header: BlockHeader {
                    version: BLOCK_VERSION,
                    prev_block_hash,
                    merkle_root,
                    timestamp,
                    difficulty,
                    nonce: 0,
                },
                transactions,
            },
        )
    }

    /// The Merkle root over the identities of `transactions`.
    pub fn calculate_merkle_root(transactions: &Vec<Transaction>) -> (r: Result<
        [u8; 32],
        LedgerError,
    >)
        ensures
            match r {
                Ok(root) => transactions@.len() > 0 && root@ == block_merkle_root(
                    transactions_view(transactions@),
                ),
                Err(e) => e == LedgerError::EmptyTransactionSet && transactions@.len() == 0,
            },
    {
        let mut ids: Vec<[u8; 32]> = Vec::new();
        let mut i: usize = 0;
        while i < transactions.len()
            invariant
                i <= transactions@.len(),
                ids@.len() == i,
                forall|k: int| 0 <= k < i ==> (#[trigger] ids@[k])@ == transaction_id(transactions@[k]@),
            decreases transactions.len() - i,
        {
            ids.push(Block::hash_transaction(&transactions[i]));
            i += 1;
        }
        assert(digests_view(ids@) =~= transaction_ids(transactions_view(transactions@)));
        match MerkleTree::new(&ids) {
            Ok(tree) => Ok(tree.root),
            Err(e) => Err(e),
        }
    }

    /// The identity of `transaction`.
    pub fn hash_transaction(transaction: &Transaction) -> (id: [u8; 32])
        ensures
            id@ == transaction_id(transaction@),
    {
        transaction_hash(transaction)
    }
}

} // verus!
