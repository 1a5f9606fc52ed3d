//! Transactions and blocks, and the mathematical values that stand for them
//! in contracts.

use vstd::prelude::*;

verus! {

/// What a `TransactionInput` holds.
pub struct TransactionInputView {
    pub txid: Seq<u8>,
    pub vout: u32,
    pub script_sig: Seq<u8>,
}

/// What a `TransactionOutput` holds.
pub struct TransactionOutputView {
    pub value: u64,
    pub script_pubkey: Seq<u8>,
}

/// What a `Transaction` holds.
pub struct TransactionView {
    pub inputs: Seq<TransactionInputView>,
    pub outputs: Seq<TransactionOutputView>,
}

/// What a `BlockHeader` holds.
pub struct BlockHeaderView {
    pub version: i32,
    pub prev_block_hash: Seq<u8>,
    pub merkle_root: Seq<u8>,
    pub timestamp: i64,
    pub difficulty: u32,
    pub nonce: u32,
}

/// What a `Block` holds.
pub struct BlockView {
    pub header: BlockHeaderView,
    pub transactions: Seq<TransactionView>,
}

/// A reference to an earlier output, with the proof that unlocks it.
#[derive(Debug, PartialEq, Eq)]
pub struct TransactionInput {
    pub txid: [u8; 32],
    pub vout: u32,
    pub script_sig: Vec<u8>,
}

/// An amount, locked to whoever satisfies `script_pubkey`.
#[derive(Debug, PartialEq, Eq)]
pub struct TransactionOutput {
    pub value: u64,
    pub script_pubkey: Vec<u8>,
}

/// A transfer: the outputs it spends and the outputs it creates.
#[derive(Debug, PartialEq, Eq)]
pub struct Transaction {
    pub inputs: Vec<TransactionInput>,
    pub outputs: Vec<TransactionOutput>,
}

/// The fixed-size part of a block.
#[derive(Debug, PartialEq, Eq)]
pub struct BlockHeader {
    pub version: i32,
    pub prev_block_hash: [u8; 32],
    pub merkle_root: [u8; 32],
    pub timestamp: i64,
    pub difficulty: u32,
    pub nonce: u32,
}

/// A header and the transactions it commits to.
#[derive(Debug, PartialEq, Eq)]
pub struct Block {
    pub header: BlockHeader,
    pub transactions: Vec<Transaction>,
}

/// Length of a digest, in bytes.
pub const DIGEST_LEN: usize = 32;

impl TransactionInputView {
    /// The digest has its length and the proof's length fits its prefix.
    pub open spec fn well_formed(self) -> bool {
        &&& self.txid.len() == DIGEST_LEN
        &&& self.script_sig.len() <= u64::MAX
    }
}

impl TransactionOutputView {
    /// The locking condition's length fits its prefix.
    pub open spec fn well_formed(self) -> bool {
        self.script_pubkey.len() <= u64::MAX
    }
}

impl TransactionView {
    /// Both lists, and every item of them, can be written down.
    pub open spec fn well_formed(self) -> bool {
        &&& self.inputs.len() <= u64::MAX
        &&& self.outputs.len() <= u64::MAX
        &&& forall|i: int| 0 <= i < self.inputs.len() ==> (#[trigger] self.inputs[i]).well_formed()
        &&& forall|i: int|
            0 <= i < self.outputs.len() ==> (#[trigger] self.outputs[i]).well_formed()
    }
}

impl BlockHeaderView {
    /// Both digests have their length.
    pub open spec fn well_formed(self) -> bool {
        &&& self.prev_block_hash.len() == DIGEST_LEN
        &&& self.merkle_root.len() == DIGEST_LEN
    }
}

impl BlockView {
    /// The header and every transaction can be written down.
    pub open spec fn well_formed(self) -> bool {
        &&& self.header.well_formed()
        &&& self.transactions.len() <= u64::MAX
        &&& forall|i: int|
            0 <= i < self.transactions.len() ==> (#[trigger] self.transactions[i]).well_formed()
    }
}

/// The values that a list of inputs stands for.
pub open spec fn inputs_view(items: Seq<TransactionInput>) -> Seq<TransactionInputView> {
    Seq::new(items.len(), |i: int| items[i]@)
}

/// The values that a list of outputs stands for.
pub open spec fn outputs_view(items: Seq<TransactionOutput>) -> Seq<TransactionOutputView> {
    Seq::new(items.len(), |i: int| items[i]@)
}

/// The values that a list of transactions stands for.
pub open spec fn transactions_view(items: Seq<Transaction>) -> Seq<TransactionView> {
    Seq::new(items.len(), |i: int| items[i]@)
}

/// The values that a list of blocks stands for.
pub open spec fn blocks_view(items: Seq<Block>) -> Seq<BlockView> {
    Seq::new(items.len(), |i: int| items[i]@)
}

impl View for TransactionInput {
    type V = TransactionInputView;

    open spec fn view(&self) -> TransactionInputView {
        TransactionInputView { txid: self.txid@, vout: self.vout, script_sig: self.script_sig@ }
    }
}

impl View for TransactionOutput {
    type V = TransactionOutputView;

    open spec fn view(&self) -> TransactionOutputView {
        TransactionOutputView { value: self.value, script_pubkey: self.script_pubkey@ }
    }
}

impl View for Transaction {
    type V = TransactionView;

    open spec fn view(&self) -> TransactionView {
        TransactionView {
            inputs: inputs_view(self.inputs@),
            outputs: outputs_view(self.outputs@),
        }
    }
}

impl View for BlockHeader {
    type V = BlockHeaderView;

    open spec fn view(&self) -> BlockHeaderView {
        BlockHeaderView {
            version: self.version,
            prev_block_hash: self.prev_block_hash@,
            merkle_root: self.merkle_root@,
            timestamp: self.timestamp,
            difficulty: self.difficulty,
            nonce: self.nonce,
        }
    }
}

impl View for Block {
    type V = BlockView;

    open spec fn view(&self) -> BlockView {
        BlockView {
            header: self.header@,
            transactions: transactions_view(self.transactions@),
        }
    }
}

/// Whatever a program holds as a transaction can be written down.
pub proof fn lemma_transaction_well_formed(tx: Transaction)
    ensures
        tx@.well_formed(),
{
    assert(tx.inputs.len() == tx.inputs@.len());
    assert(tx.outputs.len() == tx.outputs@.len());
    assert forall|i: int| 0 <= i < tx@.inputs.len() implies (#[trigger] tx@.inputs[i]).well_formed() by {
        assert(tx.inputs@[i].script_sig.len() == tx.inputs@[i].script_sig@.len());
    }
    assert forall|i: int| 0 <= i < tx@.outputs.len() implies (
    #[trigger] tx@.outputs[i]).well_formed() by {
        assert(tx.outputs@[i].script_pubkey.len() == tx.outputs@[i].script_pubkey@.len());
    }
}

/// Whatever a program holds as a block can be written down.
pub proof fn lemma_block_well_formed(block: Block)
    ensures
        block@.well_formed(),
{
    assert(block.transactions.len() == block.transactions@.len());
    assert forall|i: int| 0 <= i < block@.transactions.len() implies (
    #[trigger] block@.transactions[i]).well_formed() by {
        lemma_transaction_well_formed(block.transactions@[i]);
    }
}

/// A copy of `bytes`.
pub fn clone_bytes(bytes: &Vec<u8>) -> (copy: Vec<u8>)
    ensures
        copy@ == bytes@,
{
    let mut copy: Vec<u8> = Vec::new();
    let mut i: usize = 0;
    while i < bytes.len()
        invariant
            i <= bytes.len(),
            copy@ == bytes@.take(i as int),
        decreases bytes.len() - i,
    {
        copy.push(bytes[i]);
        i += 1;
    }
    copy
}

impl Clone for TransactionInput {
    fn clone(&self) -> (copy: Self)
        ensures
            copy@ == self@,
    {
        TransactionInput {
            txid: self.txid,
            vout: self.vout,
            script_sig: clone_bytes(&self.script_sig),
        }
    }
}

impl Clone for TransactionOutput {
    fn clone(&self) -> (copy: Self)
        ensures
            copy@ == self@,
    {
        TransactionOutput { value: self.value, script_pubkey: clone_bytes(&self.script_pubkey) }
    }
}

impl Clone for Transaction {
    fn clone(&self) -> (copy: Self)
        ensures
            copy@ == self@,
    {
        let mut inputs: Vec<TransactionInput> = Vec::new();
        let mut i: usize = 0;
        while i < self.inputs.len()
            invariant
                i <= self.inputs.len(),
                inputs@.len() == i,
                forall|k: int| 0 <= k < i ==> inputs@[k]@ == self.inputs@[k]@,
            decreases self.inputs.len() - i,
        {
            inputs.push(self.inputs[i].clone());
            i += 1;
        }
        let mut outputs: Vec<TransactionOutput> = Vec::new();
        let mut j: usize = 0;
        while j < self.outputs.len()
            invariant
                j <= self.outputs.len(),
                outputs@.len() == j,
                forall|k: int| 0 <= k < j ==> outputs@[k]@ == self.outputs@[k]@,
            decreases self.outputs.len() - j,
        {
            outputs.push(self.outputs[j].clone());
            j += 1;
        }
        let copy = Transaction { inputs, outputs };
        assert(copy@.inputs =~= self@.inputs);
        assert(copy@.outputs =~= self@.outputs);
        copy
    }
}

impl Clone for BlockHeader {
    fn clone(&self) -> (copy: Self)
        ensures
            copy@ == self@,
    {
        BlockHeader {
            version: self.version,
            prev_block_hash: self.prev_block_hash,
            merkle_root: self.merkle_root,
            timestamp: self.timestamp,
            difficulty: self.difficulty,
            nonce: self.nonce,
        }
    }
}

impl Clone for Block {
    fn clone(&self) -> (copy: Self)
        ensures
            copy@ == self@,
    {
        let mut transactions: Vec<Transaction> = Vec::new();
        let mut i: usize = 0;
        while i < self.transactions.len()
            invariant
                i <= self.transactions.len(),
                transactions@.len() == i,
                forall|k: int| 0 <= k < i ==> transactions@[k]@ == self.transactions@[k]@,
            decreases self.transactions.len() - i,
        {
            transactions.push(self.transactions[i].clone());
            i += 1;
        }
        let copy = Block { header: self.header.clone(), transactions };
        assert(copy@.transactions =~= self@.transactions);
        copy
    }
}

} // verus!
