//! The pool of transactions that wait to be included in a block.

use crate::assoc::{
    distinct_keys, has_key, lemma_map_of_entries, lemma_map_of_keys, lemma_map_of_push,
    lemma_map_of_remove, map_of,
};
use crate::errors::LedgerError;
use crate::hasher::{same_digest, transaction_hash, transaction_id};
use crate::structures::{transactions_view, Transaction, TransactionView};
use vstd::prelude::*;

verus! {

/// The pending transactions as a mathematical map, each under its identity.
pub type PendingMap = Map<Seq<u8>, TransactionView>;

/// A pending transaction with its identity, computed once.
struct Pending {
    txid: [u8; 32],
    transaction: Transaction,
}

/// The pending transactions. None occurs twice.
pub struct Mempool {
    transactions: Vec<Pending>,
}

/// The keyed values that a list of pending transactions stands for.
spec fn pending_entries(items: Seq<Pending>) -> Seq<(Seq<u8>, TransactionView)> {
    Seq::new(items.len(), |i: int| (items[i].txid@, items[i].transaction@))
}

/// Whether `picked` is a choice of `count` different transactions of `pool`.
pub open spec fn is_selection(
    pool: PendingMap,
    picked: Seq<TransactionView>,
    count: nat,
) -> bool {
    &&& picked.len() == count
    &&& forall|i: int|
        0 <= i < picked.len() ==> pool.dom().contains(transaction_id(#[trigger] picked[i]))
            && pool[transaction_id(picked[i])] == picked[i]
    &&& forall|i: int, j: int|
        0 <= i < j < picked.len() ==> transaction_id(#[trigger] picked[i]) != transaction_id(
            #[trigger] picked[j],
        )
}

impl View for Mempool {
    type V = PendingMap;

    closed spec fn view(&self) -> PendingMap {
        map_of(pending_entries(self.transactions@))
    }
}

impl Mempool {
    /// No transaction occurs twice, and each is kept under its identity.
    pub closed spec fn wf(&self) -> bool {
        &&& distinct_keys(pending_entries(self.transactions@))
        &&& forall|i: int|
            0 <= i < self.transactions@.len() ==> (#[trigger] self.transactions@[i]).txid@
                == transaction_id(self.transactions@[i].transaction@)
    }

    /// A pool holds finitely many transactions, each under its identity.
    pub proof fn lemma_keyed_by_identity(&self)
        requires
            self.wf(),
        ensures
            self@.dom().finite(),
            forall|k: Seq<u8>| self@.dom().contains(k) ==> transaction_id(#[trigger] self@[k]) == k,
    {
        let entries = pending_entries(self.transactions@);
        lemma_map_of_keys(entries);
        lemma_map_of_entries(entries);
        assert forall|k: Seq<u8>| self@.dom().contains(k) implies transaction_id(
            #[trigger] self@[k],
        ) == k by {
            assert(has_key(entries, k));
            let i = choose|i: int| 0 <= i < entries.len() && (#[trigger] entries[i]).0 == k;
            assert(map_of(entries)[entries[i].0] == entries[i].1);
            assert(self.transactions@[i].txid@ == transaction_id(
                self.transactions@[i].transaction@,
            ));
        }
    }

    /// The empty pool.
    pub fn new() -> (pool: Mempool)
        ensures
            pool.wf(),
            pool@ == Map::<Seq<u8>, TransactionView>::empty(),
    {
        let pool = Mempool { transactions: Vec::new() };
        assert(pending_entries(pool.transactions@) =~= Seq::empty());
        pool
    }

    /// Where the transaction with this identity stands, if it is pending.
    fn position(&self, tx_hash: &[u8; 32]) -> (r: Option<usize>)
        ensures
            match r {
                Some(at) => at < self.transactions@.len() && self.transactions@[at as int].txid@
                    == tx_hash@,
                None => !has_key(pending_entries(self.transactions@), tx_hash@),
            },
    {
        let mut i: usize = 0;
        while i < self.transactions.len()
            invariant
                i <= self.transactions@.len(),
                forall|j: int| 0 <= j < i ==> (#[trigger] self.transactions@[j]).txid@ != tx_hash@,
            decreases self.transactions.len() - i,
        {
            if same_digest(&self.transactions[i].txid, tx_hash) {
                return Some(i);
            }
            i += 1;
        }
        assert(!has_key(pending_entries(self.transactions@), tx_hash@)) by {
            if has_key(pending_entries(self.transactions@), tx_hash@) {
                let j = choose|j: int|
                    0 <= j < pending_entries(self.transactions@).len() && (
                    #[trigger] pending_entries(self.transactions@)[j]).0 == tx_hash@;
                assert(self.transactions@[j].txid@ != tx_hash@);
            }
        }
        None
    }

    /// Adds `transaction` to the pool, unless it is pending already.
    pub fn add_transaction(&mut self, transaction: Transaction) -> (r: Result<(), LedgerError>)
        requires
            old(self).wf(),
        ensures
            final(self).wf(),
            match r {
                Ok(()) => !old(self)@.dom().contains(transaction_id(transaction@)) && final(self)@
                    == old(self)@.insert(transaction_id(transaction@), transaction@),
                Err(e) => e == LedgerError::DuplicateTransaction && old(self)@.dom().contains(
                    transaction_id(transaction@),
                ) && final(self)@ == old(self)@,
            },
    {
        let ghost before = pending_entries(self.transactions@);
        let txid = transaction_hash(&transaction);
        proof {
            lemma_map_of_keys(before);
        }
        match self.position(&txid) {
            Some(at) => {
                assert(before[at as int].0 == txid@);
                assert(has_key(before, txid@));
                Err(LedgerError::DuplicateTransaction)
            },
            None => {
                let ghost tx_view = transaction@;
                self.transactions.push(Pending { txid, transaction });
                proof {
                    assert(pending_entries(self.transactions@) =~= before.push((txid@, tx_view)));
                    lemma_map_of_push(before, txid@, tx_view);
                }
                Ok(())
            },
        }
    }

    /// Takes the transaction with this identity out of the pool and returns
    /// it; `None` where it is not pending.
    pub fn remove_transaction(&mut self, tx_hash: &[u8; 32]) -> (r: Option<Transaction>)
        requires
            old(self).wf(),
        ensures
            final(self).wf(),
            final(self)@ == old(self)@.remove(tx_hash@),
            match r {
                Some(tx) => old(self)@.dom().contains(tx_hash@) && tx@ == old(self)@[tx_hash@],
                None => !old(self)@.dom().contains(tx_hash@),
            },
    {
        let ghost before = pending_entries(self.transactions@);
        proof {
            lemma_map_of_keys(before);
            lemma_map_of_entries(before);
        }
        match self.position(tx_hash) {
            Some(at) => {
                let entry = self.transactions.remove(at);
                proof {
                    assert(before[at as int].0 == tx_hash@);
                    assert(has_key(before, tx_hash@));
                    assert(map_of(before)[before[at as int].0] == before[at as int].1);
                    assert(pending_entries(self.transactions@) =~= before.remove(at as int));
                    lemma_map_of_remove(before, at as int);
                }
                Some(entry.transaction)
            },
            None => {
                assert(map_of(before).remove(tx_hash@) =~= map_of(before));
                None
            },
        }
    }

    /// Copies of up to `limit` pending transactions, all different. Which
    /// ones are chosen when more are pending is not fixed. The pool keeps
    /// them.
    pub fn get_transactions(&self, limit: usize) -> (picked: Vec<Transaction>)
        requires
            self.wf(),
        ensures
            is_selection(
                self@,
                transactions_view(picked@),
                if limit <= self@.dom().len() {
                    limit as nat
                } else {
                    self@.dom().len()
                },
            ),
    {
        let ghost entries = pending_entries(self.transactions@);
        proof {
            lemma_map_of_keys(entries);
            lemma_map_of_entries(entries);
        }
        let count = if limit <= self.transactions.len() {
            limit
        } else {
            self.transactions.len()
        };
        let mut picked: Vec<Transaction> = Vec::new();
        let mut i: usize = 0;
        while i < count
            invariant
                i <= count <= self.transactions@.len(),
                picked@.len() == i,
                forall|k: int| 0 <= k < i ==> (#[trigger] picked@[k])@ == self.transactions@[k].transaction@,
            decreases count - i,
        {
            picked.push(self.transactions[i].transaction.clone());
            i += 1;
        }
        proof {
            let views = transactions_view(picked@);
            assert forall|k: int| 0 <= k < views.len() implies self@.dom().contains(
                transaction_id(#[trigger] views[k]),
            ) && self@[transaction_id(views[k])] == views[k] by {
                assert(picked@[k]@ == self.transactions@[k].transaction@);
                assert(self.transactions@[k].txid@ == transaction_id(views[k]));
                assert(entries[k].0 == transaction_id(views[k]));
                assert(has_key(entries, transaction_id(views[k])));
                assert(map_of(entries)[entries[k].0] == entries[k].1);
            }
            assert forall|a: int, b: int| 0 <= a < b < views.len() implies transaction_id(
                #[trigger] views[a],
            ) != transaction_id(#[trigger] views[b]) by {
                assert(picked@[a]@ == self.transactions@[a].transaction@);
                assert(picked@[b]@ == self.transactions@[b].transaction@);
                assert(self.transactions@[a].txid@ == transaction_id(views[a]));
                assert(self.transactions@[b].txid@ == transaction_id(views[b]));
                assert(entries[a].0 != entries[b].0);
            }
        }
        picked
    }

    /// How many transactions are pending.
    pub fn len(&self) -> (n: usize)
        requires
            self.wf(),
        ensures
            n == self@.dom().len(),
    {
        proof {
            lemma_map_of_entries(pending_entries(self.transactions@));
        }
        self.transactions.len()
    }
}

} // verus!
