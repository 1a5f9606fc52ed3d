//! What the ledger does to the index of unspent outputs, as mathematics:
//! which transactions it admits, what a block changes, and why no value
//! appears from nowhere.

use crate::errors::LedgerError;
use crate::hasher::transaction_id;
use crate::structures::{
    BlockView, TransactionInputView, TransactionOutputView, TransactionView,
};
use crate::utxo::{
    lemma_total_value_insert, lemma_total_value_insert_new, lemma_total_value_remove, total_value,
    OutPoint, UTXOMap, UTXOView,
};
use vstd::prelude::*;

verus! {

/// The output that an input spends.
pub open spec fn input_key(input: TransactionInputView) -> OutPoint {
    (input.txid, input.vout)
}

/// The index of an output by its position. Positions are counted in 32
/// bits and start again at zero after the last.
pub open spec fn output_index(position: int) -> u32 {
    (position % 0x1_0000_0000) as u32
}

/// The entry that the index keeps for an output.
pub open spec fn utxo_for(txid: Seq<u8>, position: int, output: TransactionOutputView) -> UTXOView {
    UTXOView {
        txid,
        vout: output_index(position),
        amount: output.value,
        script_pubkey: output.script_pubkey,
    }
}

// ---------------------------------------------------------------------------
// Admission

/// Every input names a live output.
pub open spec fn all_inputs_live(m: UTXOMap, inputs: Seq<TransactionInputView>) -> bool {
    forall|i: int| 0 <= i < inputs.len() ==> m.dom().contains(input_key(#[trigger] inputs[i]))
}

/// The sum of the amounts of the outputs that the inputs name, input by
/// input.
pub open spec fn input_sum(m: UTXOMap, inputs: Seq<TransactionInputView>) -> nat
    decreases inputs.len(),
{
    if inputs.len() == 0 {
        0
    } else {
        input_sum(m, inputs.drop_last()) + m[input_key(inputs.last())].amount as nat
    }
}

/// The sum of the amounts of the outputs.
pub open spec fn output_sum(outputs: Seq<TransactionOutputView>) -> nat
    decreases outputs.len(),
{
    if outputs.len() == 0 {
        0
    } else {
        output_sum(outputs.drop_last()) + outputs.last().value as nat
    }
}

/// Whether the index `m` admits `tx`, and if not, why.
pub open spec fn validation(m: UTXOMap, tx: TransactionView) -> Result<(), LedgerError> {
    if !all_inputs_live(m, tx.inputs) {
        Err(LedgerError::UnknownOrSpentInput)
    } else if input_sum(m, tx.inputs) < output_sum(tx.outputs) {
        Err(LedgerError::InsufficientInputValue)
    } else {
        Ok(())
    }
}

// ---------------------------------------------------------------------------
// Application

/// The index without the outputs that the inputs name.
pub open spec fn spend_inputs(m: UTXOMap, inputs: Seq<TransactionInputView>) -> UTXOMap
    decreases inputs.len(),
{
    if inputs.len() == 0 {
        m
    } else {
        spend_inputs(m, inputs.drop_last()).remove(input_key(inputs.last()))
    }
}

/// The index with an entry for each of the outputs of the transaction
/// `txid`, in their order.
pub open spec fn create_outputs(
    m: UTXOMap,
    txid: Seq<u8>,
    outputs: Seq<TransactionOutputView>,
) -> UTXOMap
    decreases outputs.len(),
{
    if outputs.len() == 0 {
        m
    } else {
        let position = outputs.len() - 1;
        create_outputs(m, txid, outputs.drop_last()).insert(
            (txid, output_index(position)),
            utxo_for(txid, position, outputs.last()),
        )
    }
}

/// The index after `tx`: first its inputs are spent, then its outputs are
/// created, so that it cannot spend what it creates.
pub open spec fn apply_transaction(m: UTXOMap, tx: TransactionView) -> UTXOMap {
    create_outputs(spend_inputs(m, tx.inputs), transaction_id(tx), tx.outputs)
}

/// The index after the transactions, one after the other.
pub open spec fn apply_transactions(m: UTXOMap, txs: Seq<TransactionView>) -> UTXOMap
    decreases txs.len(),
{
    if txs.len() == 0 {
        m
    } else {
        apply_transaction(apply_transactions(m, txs.drop_last()), txs.last())
    }
}

/// The index after a block.
pub open spec fn apply_block(m: UTXOMap, block: BlockView) -> UTXOMap {
    apply_transactions(m, block.transactions)
}

/// Whether some input names the output `k`.
pub open spec fn names(inputs: Seq<TransactionInputView>, k: OutPoint) -> bool {
    exists|i: int| 0 <= i < inputs.len() && input_key(#[trigger] inputs[i]) == k
}

/// Spending leaves exactly the outputs that no input names, unchanged.
pub proof fn lemma_spend_inputs(m: UTXOMap, inputs: Seq<TransactionInputView>)
    ensures
        spend_inputs(m, inputs) == Map::new(
            |k: OutPoint| m.dom().contains(k) && !names(inputs, k),
            |k: OutPoint| m[k],
        ),
    decreases inputs.len(),
{
    let direct = Map::new(
        |k: OutPoint| m.dom().contains(k) && !names(inputs, k),
        |k: OutPoint| m[k],
    );
    if inputs.len() == 0 {
        assert(m =~= direct);
    } else {
        let front = inputs.drop_last();
        lemma_spend_inputs(m, front);
        assert forall|k: OutPoint| names(inputs, k) <==> (names(front, k) || k == input_key(
            inputs.last(),
        )) by {
            if names(inputs, k) {
                let i = choose|i: int| 0 <= i < inputs.len() && input_key(#[trigger] inputs[i]) == k;
                if i < front.len() {
                    assert(input_key(front[i]) == k);
                }
            }
            if names(front, k) {
                let i = choose|i: int| 0 <= i < front.len() && input_key(#[trigger] front[i]) == k;
                assert(input_key(inputs[i]) == k);
            }
            if k == input_key(inputs.last()) {
                assert(input_key(inputs[inputs.len() - 1]) == k);
            }
        }
        assert(spend_inputs(m, inputs) =~= direct);
    }
}

/// Where the outputs are few enough for each to have an index of its own,
/// creating them adds one entry for each and changes no other: this is what
/// then stands under the key `k`.
pub proof fn lemma_create_outputs(
    m: UTXOMap,
    txid: Seq<u8>,
    outputs: Seq<TransactionOutputView>,
    k: OutPoint,
)
    requires
        outputs.len() <= 0x1_0000_0000,
    ensures
        create_outputs(m, txid, outputs).dom().contains(k) <==> (m.dom().contains(k) || (k.0
            == txid && k.1 < outputs.len())),
        k.0 == txid && k.1 < outputs.len() ==> create_outputs(m, txid, outputs)[k] == utxo_for(
            txid,
            k.1 as int,
            outputs[k.1 as int],
        ),
        !(k.0 == txid && k.1 < outputs.len()) ==> create_outputs(m, txid, outputs)[k] == m[k],
    decreases outputs.len(),
{
    if outputs.len() > 0 {
        let front = outputs.drop_last();
        lemma_create_outputs(m, txid, front, k);
        let position = outputs.len() - 1;
        assert(output_index(position) == position);
        if k.0 == txid && k.1 < front.len() {
            assert(front[k.1 as int] == outputs[k.1 as int]);
        }
    }
}

// ---------------------------------------------------------------------------
// Conservation of value

/// The sum of the amounts of all outputs of the transactions.
pub open spec fn issued_by(txs: Seq<TransactionView>) -> nat
    decreases txs.len(),
{
    if txs.len() == 0 {
        0
    } else {
        issued_by(txs.drop_last()) + output_sum(txs.last().outputs)
    }
}

/// The sum of the amounts of all outputs of all transactions of the blocks.
pub open spec fn issued_in(chain: Seq<BlockView>) -> nat
    decreases chain.len(),
{
    if chain.len() == 0 {
        0
    } else {
        issued_in(chain.drop_last()) + issued_by(chain.last().transactions)
    }
}

/// Spending adds no value.
pub proof fn lemma_spend_inputs_total(m: UTXOMap, inputs: Seq<TransactionInputView>)
    requires
        m.dom().finite(),
    ensures
        spend_inputs(m, inputs).dom().finite(),
        total_value(spend_inputs(m, inputs)) <= total_value(m),
    decreases inputs.len(),
{
    if inputs.len() > 0 {
        lemma_spend_inputs_total(m, inputs.drop_last());
        let before = spend_inputs(m, inputs.drop_last());
        let k = input_key(inputs.last());
        lemma_total_value_insert(before, k, before[k]);
    }
}

/// Creating outputs adds at most their amounts.
pub proof fn lemma_create_outputs_total(
    m: UTXOMap,
    txid: Seq<u8>,
    outputs: Seq<TransactionOutputView>,
)
    requires
        m.dom().finite(),
    ensures
        create_outputs(m, txid, outputs).dom().finite(),
        total_value(create_outputs(m, txid, outputs)) <= total_value(m) + output_sum(outputs),
    decreases outputs.len(),
{
    if outputs.len() > 0 {
        lemma_create_outputs_total(m, txid, outputs.drop_last());
        let before = create_outputs(m, txid, outputs.drop_last());
        let position = outputs.len() - 1;
        lemma_total_value_insert(
            before,
            (txid, output_index(position)),
            utxo_for(txid, position, outputs.last()),
        );
    }
}

/// A transaction adds at most the amounts of its outputs to the live value.
pub proof fn lemma_apply_transaction_total(m: UTXOMap, tx: TransactionView)
    requires
        m.dom().finite(),
    ensures
        apply_transaction(m, tx).dom().finite(),
        total_value(apply_transaction(m, tx)) <= total_value(m) + output_sum(tx.outputs),
{
    lemma_spend_inputs_total(m, tx.inputs);
    lemma_create_outputs_total(spend_inputs(m, tx.inputs), transaction_id(tx), tx.outputs);
}

/// Transactions add at most the amounts of their outputs to the live value.
pub proof fn lemma_apply_transactions_total(m: UTXOMap, txs: Seq<TransactionView>)
    requires
        m.dom().finite(),
    ensures
        apply_transactions(m, txs).dom().finite(),
        total_value(apply_transactions(m, txs)) <= total_value(m) + issued_by(txs),
    decreases txs.len(),
{
    if txs.len() > 0 {
        lemma_apply_transactions_total(m, txs.drop_last());
        lemma_apply_transaction_total(apply_transactions(m, txs.drop_last()), txs.last());
    }
}

/// The index after all the blocks of a chain, applied to `m` in order.
pub open spec fn apply_chain(m: UTXOMap, chain: Seq<BlockView>) -> UTXOMap
    decreases chain.len(),
{
    if chain.len() == 0 {
        m
    } else {
        apply_block(apply_chain(m, chain.drop_last()), chain.last())
    }
}

/// However many blocks are applied, the live value never exceeds what was
/// there before and what the blocks issued.
pub proof fn lemma_value_is_conserved(m: UTXOMap, chain: Seq<BlockView>)
    requires
        m.dom().finite(),
    ensures
        apply_chain(m, chain).dom().finite(),
        total_value(apply_chain(m, chain)) <= total_value(m) + issued_in(chain),
    decreases chain.len(),
{
    if chain.len() > 0 {
        lemma_value_is_conserved(m, chain.drop_last());
        lemma_apply_transactions_total(
            apply_chain(m, chain.drop_last()),
            chain.last().transactions,
        );
    }
}

// ---------------------------------------------------------------------------
// No output is spent twice

/// Creating the outputs of one transaction leaves what stands under the
/// keys of every other transaction as it is.
pub proof fn lemma_create_outputs_elsewhere(
    m: UTXOMap,
    txid: Seq<u8>,
    outputs: Seq<TransactionOutputView>,
    k: OutPoint,
)
    requires
        k.0 != txid,
    ensures
        create_outputs(m, txid, outputs).dom().contains(k) <==> m.dom().contains(k),
        create_outputs(m, txid, outputs)[k] == m[k],
    decreases outputs.len(),
{
    if outputs.len() > 0 {
        lemma_create_outputs_elsewhere(m, txid, outputs.drop_last(), k);
    }
}

/// An output that one of the transactions spends is not live after them,
/// unless that transaction or a later one has the identity that the output
/// was created under, and so may create it anew.
pub proof fn lemma_spent_output_is_gone(
    m: UTXOMap,
    txs: Seq<TransactionView>,
    at: int,
    k: OutPoint,
)
    requires
        0 <= at < txs.len(),
        names(txs[at].inputs, k),
        forall|j: int| at <= j < txs.len() ==> transaction_id(#[trigger] txs[j]) != k.0,
    ensures
        !apply_transactions(m, txs).dom().contains(k),
    decreases txs.len(),
{
    let front = txs.drop_last();
    let last = txs.last();
    let before = apply_transactions(m, front);
    assert(transaction_id(txs[txs.len() - 1]) != k.0);
    lemma_spend_inputs(before, last.inputs);
    lemma_create_outputs_elsewhere(
        spend_inputs(before, last.inputs),
        transaction_id(last),
        last.outputs,
        k,
    );
    if at < txs.len() - 1 {
        assert(front[at] == txs[at]);
        assert forall|j: int| at <= j < front.len() implies transaction_id(#[trigger] front[j])
            != k.0 by {
            assert(front[j] == txs[j]);
        }
        lemma_spent_output_is_gone(m, front, at, k);
    }
}

/// Of two transactions that spend the same output, the second is refused
/// once a block with the first has been applied.
pub proof fn lemma_double_spend_is_rejected(
    m: UTXOMap,
    block: BlockView,
    at: int,
    again: TransactionView,
    k: OutPoint,
)
    requires
        0 <= at < block.transactions.len(),
        names(block.transactions[at].inputs, k),
        names(again.inputs, k),
        forall|j: int|
            at <= j < block.transactions.len() ==> transaction_id(#[trigger] block.transactions[j])
                != k.0,
    ensures
        validation(apply_block(m, block), again) == Err::<(), LedgerError>(
            LedgerError::UnknownOrSpentInput,
        ),
{
    lemma_spent_output_is_gone(m, block.transactions, at, k);
    let i = choose|i: int| 0 <= i < again.inputs.len() && input_key(#[trigger] again.inputs[i]) == k;
    assert(!apply_block(m, block).dom().contains(input_key(again.inputs[i])));
}

// ---------------------------------------------------------------------------
// The exact account of value

/// The outputs of `m` that the inputs name: what spending them takes away.
pub open spec fn consumed(m: UTXOMap, inputs: Seq<TransactionInputView>) -> UTXOMap {
    Map::new(|k: OutPoint| m.dom().contains(k) && names(inputs, k), |k: OutPoint| m[k])
}

/// Each output of `tx` gets an index of its own, and none takes the place of
/// an output that is live once the inputs of `tx` are spent. This holds
/// whenever no two transactions have the same identity.
pub open spec fn creates_fresh(m: UTXOMap, tx: TransactionView) -> bool {
    &&& tx.outputs.len() <= 0x1_0000_0000
    &&& forall|j: u32|
        j < tx.outputs.len() ==> !(#[trigger] spend_inputs(m, tx.inputs).dom().contains(
            (transaction_id(tx), j),
        ))
}

/// Each of the transactions creates fresh outputs in the index that the
/// transactions before it leave.
pub open spec fn all_create_fresh(m: UTXOMap, txs: Seq<TransactionView>) -> bool
    decreases txs.len(),
{
    txs.len() == 0 || (all_create_fresh(m, txs.drop_last()) && creates_fresh(
        apply_transactions(m, txs.drop_last()),
        txs.last(),
    ))
}

/// The value that the transactions take away, each from the index that the
/// transactions before it leave.
pub open spec fn consumed_by(m: UTXOMap, txs: Seq<TransactionView>) -> nat
    decreases txs.len(),
{
    if txs.len() == 0 {
        0
    } else {
        consumed_by(m, txs.drop_last()) + total_value(
            consumed(apply_transactions(m, txs.drop_last()), txs.last().inputs),
        )
    }
}

/// The transactions of all blocks of a chain, in their order.
pub open spec fn chain_transactions(chain: Seq<BlockView>) -> Seq<TransactionView>
    decreases chain.len(),
{
    if chain.len() == 0 {
        Seq::empty()
    } else {
        chain_transactions(chain.drop_last()) + chain.last().transactions
    }
}

/// Spending divides the value in two: what is taken away and what stays.
pub proof fn lemma_spend_inputs_exact(m: UTXOMap, inputs: Seq<TransactionInputView>)
    requires
        m.dom().finite(),
    ensures
        consumed(m, inputs).dom().finite(),
        total_value(m) == total_value(consumed(m, inputs)) + total_value(spend_inputs(m, inputs)),
    decreases inputs.len(),
{
    vstd::set_lib::lemma_len_subset(consumed(m, inputs).dom(), m.dom());
    if inputs.len() == 0 {
        assert(consumed(m, inputs) =~= Map::<OutPoint, UTXOView>::empty());
    } else {
        let front = inputs.drop_last();
        let k = input_key(inputs.last());
        lemma_spend_inputs_exact(m, front);
        lemma_spend_inputs(m, front);
        lemma_spend_inputs_total(m, front);
        let left = spend_inputs(m, front);
        assert forall|q: OutPoint| names(inputs, q) <==> (names(front, q) || q == k) by {
            if names(inputs, q) {
                let i = choose|i: int| 0 <= i < inputs.len() && input_key(#[trigger] inputs[i]) == q;
                if i < front.len() {
                    assert(input_key(front[i]) == q);
                }
            }
            if names(front, q) {
                let i = choose|i: int| 0 <= i < front.len() && input_key(#[trigger] front[i]) == q;
                assert(input_key(inputs[i]) == q);
            }
            if q == k {
                assert(input_key(inputs[inputs.len() - 1]) == q);
            }
        }
        if left.dom().contains(k) {
            assert(consumed(m, inputs) =~= consumed(m, front).insert(k, m[k]));
            lemma_total_value_insert_new(consumed(m, front), k, m[k]);
            lemma_total_value_remove(left, k);
        } else {
            assert(consumed(m, inputs) =~= consumed(m, front));
            assert(left.remove(k) =~= left);
        }
    }
}

/// Outputs that are created fresh add exactly their amounts.
pub proof fn lemma_create_outputs_exact(
    m: UTXOMap,
    txid: Seq<u8>,
    outputs: Seq<TransactionOutputView>,
)
    requires
        m.dom().finite(),
        outputs.len() <= 0x1_0000_0000,
        forall|j: u32| j < outputs.len() ==> !(#[trigger] m.dom().contains((txid, j))),
    ensures
        total_value(create_outputs(m, txid, outputs)) == total_value(m) + output_sum(outputs),
    decreases outputs.len(),
{
    if outputs.len() > 0 {
        let front = outputs.drop_last();
        let position = outputs.len() - 1;
        let k = (txid, output_index(position));
        lemma_create_outputs_exact(m, txid, front);
        lemma_create_outputs_total(m, txid, front);
        lemma_create_outputs(m, txid, front, k);
        assert(output_index(position) == position);
        assert(!m.dom().contains((txid, position as u32)));
        lemma_total_value_insert_new(
            create_outputs(m, txid, front),
            k,
            utxo_for(txid, position, outputs.last()),
        );
    }
}

/// The exact account of one transaction: the live value after it is the
/// live value before it, less what it takes away, plus what it creates.
pub proof fn lemma_apply_transaction_exact(m: UTXOMap, tx: TransactionView)
    requires
        m.dom().finite(),
        creates_fresh(m, tx),
    ensures
        total_value(apply_transaction(m, tx)) + total_value(consumed(m, tx.inputs)) == total_value(
            m,
        ) + output_sum(tx.outputs),
{
    lemma_spend_inputs_exact(m, tx.inputs);
    lemma_spend_inputs_total(m, tx.inputs);
    lemma_create_outputs_exact(spend_inputs(m, tx.inputs), transaction_id(tx), tx.outputs);
}

/// The exact account of a list of transactions: the live value after them
/// is what was live before and what they created, less what they took away.
pub proof fn lemma_apply_transactions_exact(m: UTXOMap, txs: Seq<TransactionView>)
    requires
        m.dom().finite(),
        all_create_fresh(m, txs),
    ensures
        total_value(apply_transactions(m, txs)) + consumed_by(m, txs) == total_value(m)
            + issued_by(txs),
    decreases txs.len(),
{
    if txs.len() > 0 {
        lemma_apply_transactions_exact(m, txs.drop_last());
        lemma_apply_transactions_total(m, txs.drop_last());
        lemma_apply_transaction_exact(apply_transactions(m, txs.drop_last()), txs.last());
    }
}

/// Applying one list of transactions after another is applying the two
/// joined, and they issue what the two issue together.
pub proof fn lemma_apply_transactions_joined(
    m: UTXOMap,
    first: Seq<TransactionView>,
    second: Seq<TransactionView>,
)
    ensures
        apply_transactions(m, first + second) == apply_transactions(
            apply_transactions(m, first),
            second,
        ),
        issued_by(first + second) == issued_by(first) + issued_by(second),
    decreases second.len(),
{
    if second.len() == 0 {
        assert(first + second =~= first);
    } else {
        lemma_apply_transactions_joined(m, first, second.drop_last());
        assert((first + second).drop_last() =~= first + second.drop_last());
        assert((first + second).last() == second.last());
    }
}

/// Applying the blocks of a chain is applying their transactions, one
/// after the other.
pub proof fn lemma_chain_is_its_transactions(m: UTXOMap, chain: Seq<BlockView>)
    ensures
        apply_chain(m, chain) == apply_transactions(m, chain_transactions(chain)),
        issued_in(chain) == issued_by(chain_transactions(chain)),
    decreases chain.len(),
{
    if chain.len() > 0 {
        lemma_chain_is_its_transactions(m, chain.drop_last());
        lemma_apply_transactions_joined(
            m,
            chain_transactions(chain.drop_last()),
            chain.last().transactions,
        );
    }
}

/// The exact account of a chain: what is live after its blocks is what was
/// live before and what its transactions created, less what they took
/// away.
pub proof fn lemma_value_account(m: UTXOMap, chain: Seq<BlockView>)
    requires
        m.dom().finite(),
        all_create_fresh(m, chain_transactions(chain)),
    ensures
        total_value(apply_chain(m, chain)) + consumed_by(m, chain_transactions(chain))
            == total_value(m) + issued_in(chain),
{
    lemma_chain_is_its_transactions(m, chain);
    lemma_apply_transactions_exact(m, chain_transactions(chain));
}

} // verus!
