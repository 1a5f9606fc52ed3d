//! The ledger: the chain of blocks, the index of unspent outputs and the pool
//! of pending transactions, and the operations that keep them together.

use crate::block::{candidate_block, current_timestamp, transaction_ids, BLOCK_VERSION};
use crate::difficulty::{
    hash_meets_difficulty, meets_difficulty, next_difficulty, retarget, MAX_DIFFICULTY,
};
use crate::errors::{BlockFault, LedgerError};
use crate::hasher::{block_hash, block_id, same_digest, transaction_hash, transaction_id};
use crate::mempool::{is_selection, Mempool, PendingMap};
use crate::rules::{
    all_create_fresh, all_inputs_live, apply_block, apply_chain, apply_transaction,
    apply_transactions, chain_transactions, consumed_by, create_outputs, input_key, input_sum,
    issued_in, lemma_value_account, lemma_value_is_conserved, output_index, output_sum,
    spend_inputs, validation,
};
use crate::structures::{
    blocks_view, clone_bytes, transactions_view, Block, BlockHeader, BlockHeaderView, BlockView,
    Transaction, TransactionOutput, TransactionOutputView, TransactionView,
};
use crate::utxo::{balance_of, total_value, OutPoint, UTXOMap, UTXOSet, UTXOView, UTXO};
use vstd::prelude::*;
use vstd::string::StringSliceAdditionalSpecFns;

verus! {

/// The amount of the single output of the genesis transaction.
pub const GENESIS_REWARD: u64 = 50_000_000_000;

/// The most transactions that a mined block holds.
pub const BLOCK_TRANSACTION_LIMIT: usize = 10;

/// The locking condition of the genesis output: the bytes of
/// "Genesis Address".
pub open spec fn genesis_address() -> Seq<u8> {
    seq![71u8, 101u8, 110u8, 101u8, 115u8, 105u8, 115u8, 32u8, 65u8, 100u8, 100u8, 114u8, 101u8, 115u8, 115u8]
}

/// The transaction of the genesis block: no input, one output.
pub open spec fn genesis_transaction() -> TransactionView {
    TransactionView {
        inputs: Seq::empty(),
        outputs: seq![
            TransactionOutputView { value: GENESIS_REWARD, script_pubkey: genesis_address() },
        ],
    }
}

/// The genesis block: in place of a parent's digest it has 32 zero bytes,
/// and its difficulty is zero.
pub open spec fn genesis_block(timestamp: i64) -> BlockView {
    candidate_block(Seq::new(32, |i: int| 0u8), seq![genesis_transaction()], 0, timestamp)
}

/// The index of a ledger that holds the genesis block alone: the one output
/// of the genesis transaction.
pub open spec fn genesis_index() -> UTXOMap {
    Map::<OutPoint, UTXOView>::empty().insert(
        (transaction_id(genesis_transaction()), 0u32),
        UTXOView {
            txid: transaction_id(genesis_transaction()),
            vout: 0,
            amount: GENESIS_REWARD,
            script_pubkey: genesis_address(),
        },
    )
}

/// Applying the genesis block to the empty index gives the genesis index.
pub proof fn lemma_genesis_index(timestamp: i64)
    ensures
        apply_block(Map::empty(), genesis_block(timestamp)) == genesis_index(),
{
    let tx = genesis_transaction();
    let txs = seq![tx];
    assert(txs.drop_last() =~= Seq::empty());
    assert(tx.outputs.drop_last() =~= Seq::empty());
    reveal_with_fuel(apply_transactions, 2);
    reveal_with_fuel(create_outputs, 2);
    assert(output_index(0) == 0);
    assert(apply_block(Map::empty(), genesis_block(timestamp)) =~= genesis_index());
}

/// Each block but the first names the digest of the block before it.
pub open spec fn is_linked(chain: Seq<BlockView>) -> bool {
    forall|i: int|
        1 <= i < chain.len() ==> (#[trigger] chain[i]).header.prev_block_hash == block_id(
            chain[i - 1],
        )
}

/// `block` with another nonce.
pub open spec fn with_nonce(block: BlockView, nonce: u32) -> BlockView {
    BlockView {
        header: BlockHeaderView {
            version: block.header.version,
            prev_block_hash: block.header.prev_block_hash,
            merkle_root: block.header.merkle_root,
            timestamp: block.header.timestamp,
            difficulty: block.header.difficulty,
            nonce,
        },
        transactions: block.transactions,
    }
}

/// Whether the digest of `block` is proof of work at the block's own
/// difficulty.
pub open spec fn is_proof_of_work(block: BlockView) -> bool {
    meets_difficulty(block_id(block), block.header.difficulty)
}

/// No nonce from `from` up to, but not including, `to` makes `block` proof
/// of work.
pub open spec fn no_proof_between(block: BlockView, from: int, to: int) -> bool {
    forall|n: u32| from <= n < to ==> !is_proof_of_work(#[trigger] with_nonce(block, n))
}

/// The identities of the transactions, as a set.
pub open spec fn id_set(txs: Seq<TransactionView>) -> Set<Seq<u8>> {
    Set::new(|k: Seq<u8>| exists|i: int| 0 <= i < txs.len() && transaction_id(#[trigger] txs[i]) == k)
}

/// The candidate that mining starts from: it follows the tip of `chain`,
/// holds `txs`, and has the difficulty that the chain asks for.
pub open spec fn mining_candidate(
    chain: Seq<BlockView>,
    txs: Seq<TransactionView>,
    timestamp: i64,
) -> BlockView {
    candidate_block(block_id(chain.last()), txs, next_difficulty(chain), timestamp)
}

/// How many transactions the next block takes from a pool.
pub open spec fn batch_size(pool: PendingMap) -> nat {
    if pool.dom().len() >= BLOCK_TRANSACTION_LIMIT {
        BLOCK_TRANSACTION_LIMIT as nat
    } else {
        pool.dom().len()
    }
}

/// The chain, the index and the pool, owned together.
pub struct Blockchain {
    chain: Vec<Block>,
    utxo_set: UTXOSet,
    mempool: Mempool,
}

impl Blockchain {
    /// The blocks of the chain, genesis first.
    pub closed spec fn blocks(&self) -> Seq<BlockView> {
        blocks_view(self.chain@)
    }

    /// The live outputs.
    pub closed spec fn unspent(&self) -> UTXOMap {
        self.utxo_set@
    }

    /// The pending transactions.
    pub closed spec fn pending(&self) -> PendingMap {
        self.mempool@
    }

    /// The index and the pool are in order.
    pub closed spec fn parts_wf(&self) -> bool {
        self.utxo_set.wf() && self.mempool.wf()
    }

    /// What holds of every ledger: there is a genesis block, each block
    /// follows the one before it, and the index is what applying all blocks
    /// in their order to the empty index gives.
    pub open spec fn wf(&self) -> bool {
        &&& self.parts_wf()
        &&& self.blocks().len() >= 1
        &&& is_linked(self.blocks())
        &&& self.unspent() == apply_chain(Map::empty(), self.blocks())
    }

    /// The live value never exceeds the value that the blocks of the chain
    /// have issued.
    pub proof fn lemma_value_conserved(&self)
        requires
            self.wf(),
        ensures
            self.unspent().dom().finite(),
            total_value(self.unspent()) <= issued_in(self.blocks()),
    {
        lemma_value_is_conserved(Map::empty(), self.blocks());
    }

    /// The exact account of value: where no transaction of the chain has
    /// created an output in the place of a live one, the live value is the
    /// value that the chain has issued, less the value that its transactions
    /// have consumed.
    pub proof fn lemma_value_accounted(&self)
        requires
            self.wf(),
            all_create_fresh(Map::empty(), chain_transactions(self.blocks())),
        ensures
            total_value(self.unspent()) + consumed_by(
                Map::empty(),
                chain_transactions(self.blocks()),
            ) == issued_in(self.blocks()),
    {
        lemma_value_account(Map::empty(), self.blocks());
    }

    /// A ledger that holds the genesis block, stamped with the current time.
    pub fn new() -> (ledger: Blockchain)
        ensures
            ledger.wf(),
            ledger.blocks().len() == 1,
            ledger.blocks()[0] == genesis_block(ledger.blocks()[0].header.timestamp),
            ledger.unspent() == genesis_index(),
            ledger.pending() == Map::<Seq<u8>, TransactionView>::empty(),
    {
        Blockchain::with_genesis_time(current_timestamp())
    }

    /// A ledger that holds the genesis block, stamped with `timestamp`.
    pub fn with_genesis_time(timestamp: i64) -> (ledger: Blockchain)
        ensures
            ledger.wf(),
            ledger.blocks() == seq![genesis_block(timestamp)],
            ledger.unspent() == genesis_index(),
            ledger.pending() == Map::<Seq<u8>, TransactionView>::empty(),
    {
        let genesis = Blockchain::create_genesis_block(timestamp);
        let mut utxo_set = UTXOSet::new();
        Blockchain::update_utxo_set(&mut utxo_set, &genesis);
        let mut chain: Vec<Block> = Vec::new();
        chain.push(genesis);
        let ledger = Blockchain { chain, utxo_set, mempool: Mempool::new() };
        proof {
            let blocks = ledger.blocks();
            assert(blocks =~= seq![genesis_block(timestamp)]);
            assert(blocks.drop_last() =~= Seq::empty());
            reveal_with_fuel(apply_chain, 2);
            lemma_genesis_index(timestamp);
        }
        ledger
    }

    /// The genesis block, stamped with `timestamp`.
    pub fn create_genesis_block(timestamp: i64) -> (genesis: Block)
        ensures
            genesis@ == genesis_block(timestamp),
    {
        let script_pubkey: Vec<u8> = vec![
            71u8,
            101u8,
            110u8,
            101u8,
            115u8,
            105u8,
            115u8,
            32u8,
            65u8,
            100u8,
            100u8,
            114u8,
            101u8,
            115u8,
            115u8,
        ];
        assert(script_pubkey@ =~= genesis_address());
        let output = TransactionOutput { value: GENESIS_REWARD, script_pubkey };
        let mut outputs: Vec<TransactionOutput> = Vec::new();
        outputs.push(output);
        let first = Transaction { inputs: Vec::new(), outputs };
        assert(first@.inputs =~= Seq::empty());
        assert(first@.outputs =~= genesis_transaction().outputs);
        let merkle_root = transaction_hash(&first);
        let mut transactions: Vec<Transaction> = Vec::new();
        transactions.push(first);
        let zero = [0u8; 32];
        proof {
            let txs = seq![genesis_transaction()];
            assert(transactions_view(transactions@) =~= txs);
            assert(zero@ =~= Seq::new(32, |i: int| 0u8));
            assert(transaction_ids(txs) =~= seq![transaction_id(genesis_transaction())]);
        }
        Block {
            header: BlockHeader {
                version: BLOCK_VERSION,
                prev_block_hash: zero,
                merkle_root,
                timestamp,
                difficulty: 0,
                nonce: 0,
            },
            transactions,
        }
    }

    /// The blocks of the chain, genesis first.
    pub fn chain(&self) -> (chain: &Vec<Block>)
        ensures
            blocks_view(chain@) == self.blocks(),
    {
        &self.chain
    }

    /// The index of unspent outputs.
    pub fn utxo_set(&self) -> (index: &UTXOSet)
        ensures
            index@ == self.unspent(),
            self.wf() ==> index.wf(),
    {
        &self.utxo_set
    }

    /// The pool of pending transactions.
    pub fn mempool(&self) -> (pool: &Mempool)
        ensures
            pool@ == self.pending(),
            self.wf() ==> pool.wf(),
    {
        &self.mempool
    }

    /// The digest that identifies `block`.
    pub fn calculate_block_hash(&self, block: &Block) -> (hash: [u8; 32])
        ensures
            hash@ == block_id(block@),
    {
        block_hash(block)
    }

    /// The digest that identifies `transaction`.
    pub fn calculate_transaction_hash(&self, transaction: &Transaction) -> (hash: [u8; 32])
        ensures
            hash@ == transaction_id(transaction@),
    {
        transaction_hash(transaction)
    }

    /// Whether the index admits `transaction`: each input has to name a live
    /// output, and the outputs named have to be worth at least as much as
    /// the outputs created.
    pub fn validate_transaction(&self, transaction: &Transaction) -> (r: Result<(), LedgerError>)
        requires
            self.wf(),
        ensures
            r == validation(self.unspent(), transaction@),
    {
        let ghost m = self.utxo_set@;
        let ghost inputs = transaction@.inputs;
        let ghost outputs = transaction@.outputs;
        let mut input_total: u128 = 0;
        let mut i: usize = 0;
        while i < transaction.inputs.len()
            invariant
                self.utxo_set.wf(),
                m == self.utxo_set@,
                inputs == transaction@.inputs,
                i <= transaction.inputs@.len(),
                all_inputs_live(m, inputs.take(i as int)),
                input_total == input_sum(m, inputs.take(i as int)),
                input_total <= i * u64::MAX,
            decreases transaction.inputs.len() - i,
        {
            let input = &transaction.inputs[i];
            assert(input@ == inputs[i as int]);
            proof {
                let next = inputs.take(i + 1);
                assert(next.drop_last() =~= inputs.take(i as int));
                assert(next.last() == inputs[i as int]);
            }
            match self.utxo_set.get_utxo(&input.txid, input.vout) {
                Some(utxo) => {
                    input_total = input_total + utxo.amount as u128;
                    proof {
                        let next = inputs.take(i + 1);
                        assert forall|j: int| 0 <= j < next.len() implies m.dom().contains(
                            input_key(#[trigger] next[j]),
                        ) by {
                            if j < i {
                                assert(inputs.take(i as int)[j] == next[j]);
                            }
                        }
                    }
                },
                None => {
                    assert(!m.dom().contains(input_key(inputs[i as int])));
                    return Err(LedgerError::UnknownOrSpentInput);
                },
            }
            i += 1;
        }
        assert(inputs.take(i as int) =~= inputs);
        let mut output_total: u128 = 0;
        let mut j: usize = 0;
        while j < transaction.outputs.len()
            invariant
                outputs == transaction@.outputs,
                j <= transaction.outputs@.len(),
                output_total == output_sum(outputs.take(j as int)),
                output_total <= j * u64::MAX,
            decreases transaction.outputs.len() - j,
        {
            proof {
                let next = outputs.take(j + 1);
                assert(next.drop_last() =~= outputs.take(j as int));
                assert(next.last() == transaction.outputs@[j as int]@);
            }
            output_total = output_total + transaction.outputs[j].value as u128;
            j += 1;
        }
        assert(outputs.take(j as int) =~= outputs);
        if input_total < output_total {
            Err(LedgerError::InsufficientInputValue)
        } else {
            Ok(())
        }
    }

    /// Whether the index admits `transaction`.
    pub fn is_valid_transaction(&self, transaction: &Transaction) -> (valid: bool)
        requires
            self.wf(),
        ensures
            valid == (validation(self.unspent(), transaction@) is Ok),
    {
        match self.validate_transaction(transaction) {
            Ok(_) => true,
            Err(_) => false,
        }
    }

    /// Puts `transaction` into the pool if the index admits it and it is not
    /// pending already. Otherwise nothing changes.
    pub fn add_transaction(&mut self, transaction: &Transaction) -> (r: Result<(), LedgerError>)
        requires
            old(self).wf(),
        ensures
            final(self).wf(),
            final(self).blocks() == old(self).blocks(),
            final(self).unspent() == old(self).unspent(),
            match validation(old(self).unspent(), transaction@) {
                Err(e) => r == Err::<(), LedgerError>(e) && final(self).pending() == old(self).pending(),
                Ok(_) => if old(self).pending().dom().contains(transaction_id(transaction@)) {
                    r == Err::<(), LedgerError>(LedgerError::DuplicateTransaction) && final(self).pending() == old(self).pending()
                } else {
                    r is Ok && final(self).pending() == old(self).pending().insert(transaction_id(transaction@), transaction@)
                },
            },
    {
        match self.validate_transaction(transaction) {
            Ok(_) => {
                let copy = transaction.clone();
                assert(copy@ == transaction@);
                let r = self.mempool.add_transaction(copy);
                r
            },
            Err(e) => Err(e),
        }
    }

    /// Whether `block` names the digest of the tip as its parent.
    pub fn validate_new_block(&self, block: &Block) -> (r: Result<(), BlockFault>)
        requires
            self.wf(),
        ensures
            match r {
                Ok(_) => block@.header.prev_block_hash == block_id(self.blocks().last()),
                Err(fault) => fault == BlockFault::BrokenChainLink
                    && block@.header.prev_block_hash != block_id(self.blocks().last()),
            },
    {
        let tip = &self.chain[self.chain.len() - 1];
        assert(tip@ == self.blocks().last());
        let tip_hash = block_hash(tip);
        if same_digest(&block.header.prev_block_hash, &tip_hash) {
            Ok(())
        } else {
            Err(BlockFault::BrokenChainLink)
        }
    }

    /// Whether `block` may follow the tip.
    pub fn is_valid_new_block(&self, block: &Block) -> (valid: bool)
        requires
            self.wf(),
        ensures
            valid == (block@.header.prev_block_hash == block_id(self.blocks().last())),
    {
        match self.validate_new_block(block) {
            Ok(_) => true,
            Err(_) => false,
        }
    }

    /// Applies one transaction to the index: its inputs are spent, then its
    /// outputs are created.
    fn apply_to_index(utxo_set: &mut UTXOSet, tx: &Transaction)
        requires
            old(utxo_set).wf(),
        ensures
            final(utxo_set).wf(),
            final(utxo_set)@ == apply_transaction(old(utxo_set)@, tx@),
    {
        let ghost inputs = tx@.inputs;
        let ghost outputs = tx@.outputs;
        let mut i: usize = 0;
        while i < tx.inputs.len()
            invariant
                utxo_set.wf(),
                inputs == tx@.inputs,
                i <= tx.inputs@.len(),
                utxo_set@ == spend_inputs(old(utxo_set)@, inputs.take(i as int)),
            decreases tx.inputs.len() - i,
        {
            let input = &tx.inputs[i];
            proof {
                let next = inputs.take(i + 1);
                assert(next.drop_last() =~= inputs.take(i as int));
                assert(next.last() == input@);
            }
            utxo_set.remove_utxo(&input.txid, input.vout);
            i += 1;
        }
        assert(inputs.take(i as int) =~= inputs);
        let ghost spent = utxo_set@;
        let txid = transaction_hash(tx);
        let mut position: usize = 0;
        let mut vout: u32 = 0;
        while position < tx.outputs.len()
            invariant
                utxo_set.wf(),
                outputs == tx@.outputs,
                txid@ == transaction_id(tx@),
                position <= tx.outputs@.len(),
                vout == output_index(position as int),
                utxo_set@ == create_outputs(spent, txid@, outputs.take(position as int)),
            decreases tx.outputs.len() - position,
        {
            let output = &tx.outputs[position];
            proof {
                let next = outputs.take(position + 1);
                assert(next.drop_last() =~= outputs.take(position as int));
                assert(next.last() == output@);
            }
            utxo_set.add_utxo(
                UTXO {
                    txid,
                    vout,
                    amount: output.value,
                    script_pubkey: clone_bytes(&output.script_pubkey),
                },
            );
            vout = if vout == u32::MAX {
                0
            } else {
                vout + 1
            };
            position += 1;
        }
        assert(outputs.take(position as int) =~= outputs);
    }

    /// Applies the transactions of `block` to the index, in their order.
    pub fn update_utxo_set(utxo_set: &mut UTXOSet, block: &Block)
        requires
            old(utxo_set).wf(),
        ensures
            final(utxo_set).wf(),
            final(utxo_set)@ == apply_block(old(utxo_set)@, block@),
    {
        let ghost txs = block@.transactions;
        let mut i: usize = 0;
        while i < block.transactions.len()
            invariant
                utxo_set.wf(),
                txs == block@.transactions,
                i <= block.transactions@.len(),
                utxo_set@ == apply_transactions(old(utxo_set)@, txs.take(i as int)),
            decreases block.transactions.len() - i,
        {
            proof {
                let next = txs.take(i + 1);
                assert(next.drop_last() =~= txs.take(i as int));
                assert(next.last() == block.transactions@[i as int]@);
            }
            Blockchain::apply_to_index(utxo_set, &block.transactions[i]);
            i += 1;
        }
        assert(txs.take(i as int) =~= txs);
    }

    /// Appends `block` to the chain and applies it to the index, if it names
    /// the digest of the tip as its parent. Otherwise nothing changes.
    pub fn add_block(&mut self, block: Block) -> (r: Result<(), LedgerError>)
        requires
            old(self).wf(),
        ensures
            final(self).wf(),
            final(self).pending() == old(self).pending(),
            match r {
                Ok(_) => {
                    &&& block@.header.prev_block_hash == block_id(old(self).blocks().last())
                    &&& final(self).blocks() == old(self).blocks().push(block@)
                    &&& final(self).unspent() == apply_block(old(self).unspent(), block@)
                },
                Err(e) => {
                    &&& e == LedgerError::InvalidBlock(BlockFault::BrokenChainLink)
                    &&& block@.header.prev_block_hash != block_id(old(self).blocks().last())
                    &&& final(self).blocks() == old(self).blocks()
                    &&& final(self).unspent() == old(self).unspent()
                },
            },
    {
        match self.validate_new_block(&block) {
            Ok(_) => {
                let ghost before = self.blocks();
                Blockchain::update_utxo_set(&mut self.utxo_set, &block);
                self.chain.push(block);
                proof {
                    let after = self.blocks();
                    assert(after =~= before.push(block@));
                    assert(after.drop_last() =~= before);
                    assert(is_linked(after)) by {
                        assert forall|i: int| 1 <= i < after.len() implies (
                        #[trigger] after[i]).header.prev_block_hash == block_id(after[i - 1]) by {
                            if i < before.len() {
                                assert(before[i].header.prev_block_hash == block_id(before[i - 1]));
                            }
                        }
                    }
                }
                Ok(())
            },
            Err(fault) => Err(LedgerError::InvalidBlock(fault)),
        }
    }

    /// The difficulty of the next block.
    pub fn adjust_difficulty(&self) -> (difficulty: u32)
        requires
            self.wf(),
        ensures
            difficulty == next_difficulty(self.blocks()),
            1 <= difficulty <= MAX_DIFFICULTY,
    {
        retarget(&self.chain)
    }

    /// Whether `hash` is proof of work at `difficulty`.
    pub fn calculate_hash_meets_difficulty(&self, hash: &[u8; 32], difficulty: u32) -> (meets: bool)
        requires
            difficulty <= MAX_DIFFICULTY,
        ensures
            meets == meets_difficulty(hash@, difficulty),
    {
        hash_meets_difficulty(hash, difficulty)
    }

    /// Searches for proof of work: tries the nonce of `block` and each one
    /// after it, up to the largest, and returns the block with the first
    /// nonce that makes its digest meet its difficulty.
    pub fn proof_of_work(block: Block) -> (r: Result<Block, LedgerError>)
        requires
            block.header.difficulty <= MAX_DIFFICULTY,
        ensures
            match r {
                Ok(found) => {
                    &&& found@ == with_nonce(block@, found.header.nonce)
                    &&& block.header.nonce <= found.header.nonce
                    &&& is_proof_of_work(found@)
                    &&& no_proof_between(
                        block@,
                        block.header.nonce as int,
                        found.header.nonce as int,
                    )
                },
                Err(e) => e == LedgerError::ProofOfWorkExhausted && no_proof_between(
                    block@,
                    block.header.nonce as int,
                    u32::MAX + 1,
                ),
            },
    {
        let ghost start = block@;
        let mut candidate = block;
        assert(candidate@ == with_nonce(start, candidate.header.nonce));
        loop
            invariant
                start == block@,
                candidate@ == with_nonce(start, candidate.header.nonce),
                start.header.nonce <= candidate.header.nonce,
                start.header.difficulty <= MAX_DIFFICULTY,
                no_proof_between(start, start.header.nonce as int, candidate.header.nonce as int),
            decreases u32::MAX - candidate.header.nonce,
        {
            let hash = block_hash(&candidate);
            if hash_meets_difficulty(&hash, candidate.header.difficulty) {
                return Ok(candidate);
            }
            if candidate.header.nonce == u32::MAX {
                assert forall|n: u32| start.header.nonce <= n < u32::MAX + 1 implies !is_proof_of_work(
                    #[trigger] with_nonce(start, n),
                ) by {
                    if n == u32::MAX {
                    }
                }
                return Err(LedgerError::ProofOfWorkExhausted);
            }
            let ghost tried = candidate.header.nonce;
            candidate.header.nonce = candidate.header.nonce + 1;
            assert(candidate@ == with_nonce(start, candidate.header.nonce));
            assert(no_proof_between(
                start,
                start.header.nonce as int,
                candidate.header.nonce as int,
            )) by {
                assert forall|n: u32|
                    start.header.nonce <= n < candidate.header.nonce implies !is_proof_of_work(
                    #[trigger] with_nonce(start, n),
                ) by {
                    if n == tried {
                    }
                }
            }
        }
    }

    /// Mines the next block at the time `timestamp`.
    ///
    /// Up to `BLOCK_TRANSACTION_LIMIT` pending transactions are chosen, a
    /// candidate that follows the tip is built over them at the difficulty
    /// that the chain asks for, and the nonces are tried from zero. The
    /// block with the first nonce that gives proof of work is returned, and
    /// its transactions leave the pool. The block is not appended: that is
    /// `add_block`. Where no transaction is pending or no nonce gives proof
    /// of work, nothing changes.
    pub fn mine_block_at(&mut self, timestamp: i64) -> (r: Result<Block, LedgerError>)
        requires
            old(self).wf(),
        ensures
            final(self).wf(),
            final(self).blocks() == old(self).blocks(),
            final(self).unspent() == old(self).unspent(),
            match r {
                Ok(block) => {
                    &&& is_selection(
                        old(self).pending(),
                        block@.transactions,
                        batch_size(old(self).pending()),
                    )
                    &&& block@.transactions.len() > 0
                    &&& block@ == with_nonce(
                        mining_candidate(old(self).blocks(), block@.transactions, timestamp),
                        block.header.nonce,
                    )
                    &&& is_proof_of_work(block@)
                    &&& no_proof_between(
                        mining_candidate(old(self).blocks(), block@.transactions, timestamp),
                        0,
                        block.header.nonce as int,
                    )
                    &&& final(self).pending() == old(self).pending().remove_keys(
                        id_set(block@.transactions),
                    )
                },
                Err(e) => {
                    &&& final(self).pending() == old(self).pending()
                    &&& e == LedgerError::EmptyTransactionSet || e
                        == LedgerError::ProofOfWorkExhausted
                    &&& e == LedgerError::EmptyTransactionSet <==> old(self).pending().dom().len()
                        == 0
                    &&& e == LedgerError::ProofOfWorkExhausted ==> exists|txs: Seq<TransactionView>|
                        is_selection(old(self).pending(), txs, batch_size(old(self).pending()))
                            && no_proof_between(
                            #[trigger] mining_candidate(old(self).blocks(), txs, timestamp),
                            0,
                            u32::MAX + 1,
                        )
                },
            },
    {
        let tip = &self.chain[self.chain.len() - 1];
        assert(tip@ == self.blocks().last());
        let prev_hash = block_hash(tip);
        let transactions = self.mempool.get_transactions(BLOCK_TRANSACTION_LIMIT);
        let difficulty = self.adjust_difficulty();
        let ghost txs = transactions_view(transactions@);
        let candidate = match Block::with_timestamp(prev_hash, transactions, difficulty, timestamp) {
            Ok(block) => block,
            Err(e) => { return Err(e); },
        };
        assert(candidate@ == mining_candidate(self.blocks(), txs, timestamp));
        let mined = match Blockchain::proof_of_work(candidate) {
            Ok(block) => block,
            Err(e) => { return Err(e); },
        };
        let ghost pool = self.mempool@;
        let mut i: usize = 0;
        assert(pool.remove_keys(id_set(txs.take(0))) =~= pool);
        while i < mined.transactions.len()
            invariant
                self.mempool.wf(),
                self.utxo_set@ == old(self).utxo_set@,
                self.utxo_set.wf(),
                self.chain == old(self).chain,
                mined@.transactions == txs,
                i <= mined.transactions@.len(),
                self.mempool@ == pool.remove_keys(id_set(txs.take(i as int))),
            decreases mined.transactions.len() - i,
        {
            let tx_hash = transaction_hash(&mined.transactions[i]);
            self.mempool.remove_transaction(&tx_hash);
            proof {
                let done = txs.take(i as int);
                let next = txs.take(i + 1);
                assert(next[i as int] == txs[i as int]);
                assert forall|k: Seq<u8>| id_set(next).contains(k) <==> (id_set(done).contains(k)
                    || k == tx_hash@) by {
                    if id_set(next).contains(k) {
                        let j = choose|j: int|
                            0 <= j < next.len() && transaction_id(#[trigger] next[j]) == k;
                        if j < i {
                            assert(transaction_id(done[j]) == k);
                        }
                    }
                    if id_set(done).contains(k) {
                        let j = choose|j: int|
                            0 <= j < done.len() && transaction_id(#[trigger] done[j]) == k;
                        assert(transaction_id(next[j]) == k);
                    }
                    if k == tx_hash@ {
                        assert(transaction_id(next[i as int]) == k);
                    }
                }
                assert(self.mempool@ =~= pool.remove_keys(id_set(next)));
            }
            i += 1;
        }
        assert(txs.take(i as int) =~= txs);
        Ok(mined)
    }

    /// Mines the next block at the current time: see `mine_block_at`.
    pub fn mine_block(&mut self) -> (r: Result<Block, LedgerError>)
        requires
            old(self).wf(),
        ensures
            final(self).wf(),
            final(self).blocks() == old(self).blocks(),
            final(self).unspent() == old(self).unspent(),
            match r {
                Ok(block) => {
                    &&& is_selection(
                        old(self).pending(),
                        block@.transactions,
                        batch_size(old(self).pending()),
                    )
                    &&& block@.transactions.len() > 0
                    &&& block@ == with_nonce(
                        mining_candidate(
                            old(self).blocks(),
                            block@.transactions,
                            block.header.timestamp,
                        ),
                        block.header.nonce,
                    )
                    &&& is_proof_of_work(block@)
                    &&& no_proof_between(
                        mining_candidate(
                            old(self).blocks(),
                            block@.transactions,
                            block.header.timestamp,
                        ),
                        0,
                        block.header.nonce as int,
                    )
                    &&& final(self).pending() == old(self).pending().remove_keys(
                        id_set(block@.transactions),
                    )
                },
                Err(e) => {
                    &&& final(self).pending() == old(self).pending()
                    &&& e == LedgerError::EmptyTransactionSet || e
                        == LedgerError::ProofOfWorkExhausted
                    &&& e == LedgerError::EmptyTransactionSet <==> old(self).pending().dom().len()
                        == 0
                    &&& e == LedgerError::ProofOfWorkExhausted ==> exists|
                        txs: Seq<TransactionView>,
                        timestamp: i64,
                    |
                        is_selection(old(self).pending(), txs, batch_size(old(self).pending()))
                            && no_proof_between(
                            #[trigger] mining_candidate(old(self).blocks(), txs, timestamp),
                            0,
                            u32::MAX + 1,
                        )
                },
            },
    {
        let timestamp = current_timestamp();
        self.mine_block_at(timestamp)
    }

    /// The sum of the amounts of the live outputs whose locking condition is
    /// the bytes of `address`, where that sum fits the result; `None` where
    /// it does not.
    pub fn checked_balance(&self, address: &str) -> (r: Option<u64>)
        requires
            self.wf(),
        ensures
            match r {
                Some(sum) => sum == balance_of(self.unspent(), address.spec_bytes()),
                None => balance_of(self.unspent(), address.spec_bytes()) > u64::MAX,
            },
    {
        self.utxo_set.checked_balance(address)
    }

    /// The sum of the amounts of the live outputs whose locking condition is
    /// the bytes of `address`.
    pub fn get_balance(&self, address: &str) -> (sum: u64)
        requires
            self.wf(),
            balance_of(self.unspent(), address.spec_bytes()) <= u64::MAX,
        ensures
            sum == balance_of(self.unspent(), address.spec_bytes()),
    {
        self.utxo_set.get_balance(address)
    }
}

} // verus!
