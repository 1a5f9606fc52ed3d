//! The index of unspent transaction outputs.

use crate::assoc::{
    distinct_keys, has_key, lemma_map_of_entries, lemma_map_of_keys, lemma_map_of_push,
    lemma_map_of_remove, lemma_map_of_take_next, map_of,
};
use crate::hasher::same_digest;
use crate::structures::clone_bytes;
use vstd::prelude::*;
use vstd::string::StringSliceAdditionalSpecFns;

verus! {

/// What identifies an output: the digest of the transaction that created it
/// and its position among that transaction's outputs.
pub type OutPoint = (Seq<u8>, u32);

/// What a `UTXO` holds.
pub struct UTXOView {
    pub txid: Seq<u8>,
    pub vout: u32,
    pub amount: u64,
    pub script_pubkey: Seq<u8>,
}

impl UTXOView {
    /// The key under which the index holds this output.
    pub open spec fn key(self) -> OutPoint {
        (self.txid, self.vout)
    }
}

/// An unspent output: where it was created, its amount, and the condition
/// that locks it.
#[derive(Debug, PartialEq, Eq)]
pub struct UTXO {
    pub txid: [u8; 32],
    pub vout: u32,
    pub amount: u64,
    pub script_pubkey: Vec<u8>,
}

impl View for UTXO {
    type V = UTXOView;

    open spec fn view(&self) -> UTXOView {
        UTXOView {
            txid: self.txid@,
            vout: self.vout,
            amount: self.amount,
            script_pubkey: self.script_pubkey@,
        }
    }
}

impl Clone for UTXO {
    fn clone(&self) -> (copy: Self)
        ensures
            copy@ == self@,
    {
        UTXO {
            txid: self.txid,
            vout: self.vout,
            amount: self.amount,
            script_pubkey: clone_bytes(&self.script_pubkey),
        }
    }
}

/// The live outputs as a mathematical map.
pub type UTXOMap = Map<OutPoint, UTXOView>;

// ---------------------------------------------------------------------------
// Sums over the index

/// The sum of the amounts of all outputs in `m`.
pub open spec fn total_value(m: UTXOMap) -> nat
    decreases m.dom().len(),
    when m.dom().finite()
{
    if m.dom().len() == 0 {
        0
    } else {
        let k = m.dom().choose();
        m[k].amount as nat + total_value(m.remove(k))
    }
}

/// The outputs of `m` that `script` locks.
pub open spec fn locked_by(m: UTXOMap, script: Seq<u8>) -> UTXOMap {
    Map::new(|k: OutPoint| m.dom().contains(k) && m[k].script_pubkey == script, |k: OutPoint| m[k])
}

/// The sum of the amounts of the outputs in `m` that `script` locks.
pub open spec fn balance_of(m: UTXOMap, script: Seq<u8>) -> nat {
    total_value(locked_by(m, script))
}

/// Taking any one output out of the sum leaves the sum of the others.
pub proof fn lemma_total_value_remove(m: UTXOMap, k: OutPoint)
    requires
        m.dom().finite(),
        m.dom().contains(k),
    ensures
        total_value(m) == m[k].amount + total_value(m.remove(k)),
    decreases m.dom().len(),
{
    let c = m.dom().choose();
    if c != k {
        lemma_total_value_remove(m.remove(c), k);
        lemma_total_value_remove(m.remove(k), c);
        assert(m.remove(c).remove(k) =~= m.remove(k).remove(c));
    }
}

/// A new output adds its amount to the sum.
pub proof fn lemma_total_value_insert_new(m: UTXOMap, k: OutPoint, u: UTXOView)
    requires
        m.dom().finite(),
        !m.dom().contains(k),
    ensures
        total_value(m.insert(k, u)) == total_value(m) + u.amount,
{
    lemma_total_value_remove(m.insert(k, u), k);
    assert(m.insert(k, u).remove(k) =~= m);
}

/// An output that takes the place of another replaces its amount in the sum.
pub proof fn lemma_total_value_insert(m: UTXOMap, k: OutPoint, u: UTXOView)
    requires
        m.dom().finite(),
    ensures
        total_value(m.insert(k, u)) == total_value(m.remove(k)) + u.amount,
        total_value(m.insert(k, u)) <= total_value(m) + u.amount,
        total_value(m.remove(k)) <= total_value(m),
{
    assert(m.insert(k, u) =~= m.remove(k).insert(k, u));
    lemma_total_value_insert_new(m.remove(k), k, u);
    if m.dom().contains(k) {
        lemma_total_value_remove(m, k);
    } else {
        assert(m.remove(k) =~= m);
    }
}

/// What one script locks is part of the whole.
pub proof fn lemma_balance_at_most_total(m: UTXOMap, script: Seq<u8>)
    requires
        m.dom().finite(),
    ensures
        balance_of(m, script) <= total_value(m),
    decreases m.dom().len(),
{
    if m.dom().len() == 0 {
        assert(locked_by(m, script) =~= m);
    } else {
        let k = m.dom().choose();
        let rest = m.remove(k);
        lemma_balance_at_most_total(rest, script);
        lemma_total_value_remove(m, k);
        lemma_locked_by_finite(m, script);
        lemma_locked_by_finite(rest, script);
        if m[k].script_pubkey == script {
            assert(locked_by(m, script).remove(k) =~= locked_by(rest, script));
            lemma_total_value_remove(locked_by(m, script), k);
        } else {
            assert(locked_by(m, script) =~= locked_by(rest, script));
        }
    }
}

/// Only finitely many of finitely many outputs are locked by a script.
pub proof fn lemma_locked_by_finite(m: UTXOMap, script: Seq<u8>)
    requires
        m.dom().finite(),
    ensures
        locked_by(m, script).dom().finite(),
{
    vstd::set_lib::lemma_len_subset(locked_by(m, script).dom(), m.dom());
}

/// A new output adds its amount to the balance of the script that locks it,
/// and to no other.
pub proof fn lemma_balance_insert_new(m: UTXOMap, k: OutPoint, u: UTXOView, script: Seq<u8>)
    requires
        m.dom().finite(),
        !m.dom().contains(k),
    ensures
        balance_of(m.insert(k, u), script) == balance_of(m, script) + (if u.script_pubkey
            == script {
            u.amount as nat
        } else {
            0
        }),
{
    lemma_locked_by_finite(m, script);
    if u.script_pubkey == script {
        assert(locked_by(m.insert(k, u), script) =~= locked_by(m, script).insert(k, u));
        lemma_total_value_insert_new(locked_by(m, script), k, u);
    } else {
        assert(locked_by(m.insert(k, u), script) =~= locked_by(m, script));
    }
}

// ---------------------------------------------------------------------------
// From a list of entries to the map

/// The keyed values that a list of outputs stands for.
pub open spec fn utxo_entries(items: Seq<UTXO>) -> Seq<(OutPoint, UTXOView)> {
    Seq::new(items.len(), |i: int| (items[i]@.key(), items[i]@))
}

/// Whether two byte strings are the same.
pub fn same_bytes(a: &[u8], b: &[u8]) -> (same: bool)
    ensures
        same == (a@ == b@),
{
    if a.len() != b.len() {
        return false;
    }
    let mut i: usize = 0;
    while i < a.len()
        invariant
            i <= a.len(),
            a@.len() == b@.len(),
            forall|k: int| 0 <= k < i ==> a@[k] == b@[k],
        decreases a.len() - i,
    {
        if a[i] != b[i] {
            return false;
        }
        i += 1;
    }
    assert(a@ =~= b@);
    true
}

// ---------------------------------------------------------------------------
// Keys as text

/// Two hexadecimal digits in lower case for each byte, the high half first.
pub open spec fn hex_digits(data: Seq<u8>) -> Seq<char> {
    Seq::new(
        2 * data.len(),
        |i: int|
            if i % 2 == 0 {
                "0123456789abcdef"@[data[i / 2] as int / 16]
            } else {
                "0123456789abcdef"@[data[i / 2] as int % 16]
            },
    )
}

/// The decimal digits of a number, without leading zeros.
pub open spec fn decimal_digits(n: nat) -> Seq<char>
    decreases n,
{
    if n < 10 {
        seq!["0123456789"@[n as int]]
    } else {
        decimal_digits(n / 10).push("0123456789"@[(n % 10) as int])
    }
}

/// An output's key as text: the digest in hexadecimal, a colon, the index in
/// decimal.
pub open spec fn key_text(txid: Seq<u8>, vout: u32) -> Seq<char> {
    hex_digits(txid) + seq![':'] + decimal_digits(vout as nat)
}

/// Calls `hex::encode`, which writes each byte as two hexadecimal digits in
/// lower case, the high half first.
#[verifier::external_body]
fn hex_text(data: &[u8]) -> (text: String)
    ensures
        text@ == hex_digits(data@),
{
    hex::encode(data)
}

fn digit_text(d: u32) -> (text: &'static str)
    requires
        d < 10,
    ensures
        text@ == seq!["0123456789"@[d as int]],
{
    proof {
        reveal_strlit("0123456789");
        reveal_strlit("0");
        reveal_strlit("1");
        reveal_strlit("2");
        reveal_strlit("3");
        reveal_strlit("4");
        reveal_strlit("5");
        reveal_strlit("6");
        reveal_strlit("7");
        reveal_strlit("8");
        reveal_strlit("9");
    }
    let text = if d == 0 {
        "0"
    } else if d == 1 {
        "1"
    } else if d == 2 {
        "2"
    } else if d == 3 {
        "3"
    } else if d == 4 {
        "4"
    } else if d == 5 {
        "5"
    } else if d == 6 {
        "6"
    } else if d == 7 {
        "7"
    } else if d == 8 {
        "8"
    } else {
        "9"
    };
    assert(text@ =~= seq!["0123456789"@[d as int]]);
    text
}

fn decimal_text(n: u32) -> (text: String)
    ensures
        text@ == decimal_digits(n as nat),
    decreases n,
{
    if n < 10 {
        String::from_str(digit_text(n))
    } else {
        let mut text = decimal_text(n / 10);
        text.append(digit_text(n % 10));
        assert(text@ =~= decimal_digits((n / 10) as nat).push("0123456789"@[(n % 10) as int]));
        text
    }
}

// ---------------------------------------------------------------------------
// The index

/// The unspent outputs, each under the transaction that created it and its
/// position there. No key occurs twice.
#[derive(Debug)]
pub struct UTXOSet {
    utxos: Vec<UTXO>,
}

impl View for UTXOSet {
    type V = UTXOMap;

    closed spec fn view(&self) -> UTXOMap {
        map_of(utxo_entries(self.utxos@))
    }
}

impl UTXOSet {
    /// No key occurs twice among the entries.
    pub closed spec fn wf(&self) -> bool {
        distinct_keys(utxo_entries(self.utxos@))
    }

    /// An index holds finitely many outputs.
    pub proof fn lemma_finite(&self)
        ensures
            self@.dom().finite(),
    {
        lemma_map_of_keys(utxo_entries(self.utxos@));
    }

    /// Each output of an index stands under its own key.
    pub proof fn lemma_keyed_by_outpoint(&self)
        requires
            self.wf(),
        ensures
            forall|k: OutPoint| self@.dom().contains(k) ==> (#[trigger] self@[k]).key() == k,
    {
        let entries = utxo_entries(self.utxos@);
        lemma_map_of_keys(entries);
        lemma_map_of_entries(entries);
        assert forall|k: OutPoint| self@.dom().contains(k) implies (#[trigger] self@[k]).key()
            == k by {
            assert(has_key(entries, k));
            let i = choose|i: int| 0 <= i < entries.len() && (#[trigger] entries[i]).0 == k;
            assert(map_of(entries)[entries[i].0] == entries[i].1);
        }
    }

    /// The key of an output as text, as it is shown to people.
    pub fn generate_key(txid: &[u8; 32], vout: u32) -> (key: String)
        ensures
            key@ == key_text(txid@, vout),
    {
        let mut key = hex_text(txid.as_slice());
        proof {
            reveal_strlit(":");
        }
        key.append(":");
        let index = decimal_text(vout);
        key.append(index.as_str());
        assert(":"@ =~= seq![':']);
        key
    }

    /// The empty index.
    pub fn new() -> (set: UTXOSet)
        ensures
            set.wf(),
            set@ == Map::<OutPoint, UTXOView>::empty(),
    {
        let set = UTXOSet { utxos: Vec::new() };
        assert(utxo_entries(set.utxos@) =~= Seq::empty());
        set
    }

    /// Where the entry with this key stands, if there is one.
    fn position(&self, txid: &[u8; 32], vout: u32) -> (r: Option<usize>)
        ensures
            match r {
                Some(at) => at < self.utxos@.len() && self.utxos@[at as int]@.key() == (
                    txid@,
                    vout,
                ),
                None => !has_key(utxo_entries(self.utxos@), (txid@, vout)),
            },
    {
        let mut i: usize = 0;
        while i < self.utxos.len()
            invariant
                i <= self.utxos@.len(),
                forall|j: int| 0 <= j < i ==> (#[trigger] self.utxos@[j])@.key() != (txid@, vout),
            decreases self.utxos.len() - i,
        {
            if self.utxos[i].vout == vout && same_digest(&self.utxos[i].txid, txid) {
                return Some(i);
            }
            i += 1;
        }
        assert(!has_key(utxo_entries(self.utxos@), (txid@, vout))) by {
            if has_key(utxo_entries(self.utxos@), (txid@, vout)) {
                let j = choose|j: int|
                    0 <= j < utxo_entries(self.utxos@).len() && (#[trigger] utxo_entries(
                        self.utxos@,
                    )[j]).0 == (txid@, vout);
                assert(self.utxos@[j]@.key() != (txid@, vout));
            }
        }
        None
    }

    /// Puts `utxo` into the index under its key. An entry that was there
    /// under the same key is replaced.
    pub fn add_utxo(&mut self, utxo: UTXO)
        requires
            old(self).wf(),
        ensures
            final(self).wf(),
            final(self)@ == old(self)@.insert(utxo@.key(), utxo@),
    {
        let ghost before = utxo_entries(self.utxos@);
        let found = self.position(&utxo.txid, utxo.vout);
        proof {
            lemma_map_of_keys(before);
        }
        match found {
            Some(at) => {
                self.utxos.remove(at);
                proof {
                    assert(utxo_entries(self.utxos@) =~= before.remove(at as int));
                    lemma_map_of_remove(before, at as int);
                    lemma_map_of_keys(before.remove(at as int));
                }
            },
            None => {},
        }
        let ghost middle = utxo_entries(self.utxos@);
        assert(!has_key(middle, utxo@.key()));
        self.utxos.push(utxo);
        proof {
            assert(utxo_entries(self.utxos@) =~= middle.push((utxo@.key(), utxo@)));
            lemma_map_of_push(middle, utxo@.key(), utxo@);
            assert(map_of(middle).insert(utxo@.key(), utxo@) =~= map_of(before).insert(
                utxo@.key(),
                utxo@,
            ));
        }
    }

    /// Takes the entry with this key out of the index and returns it; `None`
    /// where there is none.
    pub fn remove_utxo(&mut self, txid: &[u8; 32], vout: u32) -> (r: Option<UTXO>)
        requires
            old(self).wf(),
        ensures
            final(self).wf(),
            final(self)@ == old(self)@.remove((txid@, vout)),
            match r {
                Some(utxo) => old(self)@.dom().contains((txid@, vout)) && utxo@ == old(self)@[(
                    txid@,
                    vout,
                )],
                None => !old(self)@.dom().contains((txid@, vout)),
            },
    {
        let ghost before = utxo_entries(self.utxos@);
        proof {
            lemma_map_of_keys(before);
            lemma_map_of_entries(before);
        }
        match self.position(txid, vout) {
            Some(at) => {
                let utxo = self.utxos.remove(at);
                proof {
                    assert(before[at as int].0 == (txid@, vout));
                    assert(has_key(before, (txid@, vout)));
                    assert(map_of(before)[before[at as int].0] == before[at as int].1);
                    assert(utxo_entries(self.utxos@) =~= before.remove(at as int));
                    lemma_map_of_remove(before, at as int);
                }
                Some(utxo)
            },
            None => {
                assert(map_of(before).remove((txid@, vout)) =~= map_of(before));
                None
            },
        }
    }

    /// The entry with this key; `None` where there is none.
    pub fn get_utxo(&self, txid: &[u8; 32], vout: u32) -> (r: Option<&UTXO>)
        requires
            self.wf(),
        ensures
            match r {
                Some(utxo) => self@.dom().contains((txid@, vout)) && utxo@ == self@[(txid@, vout)],
                None => !self@.dom().contains((txid@, vout)),
            },
    {
        let ghost entries = utxo_entries(self.utxos@);
        proof {
            lemma_map_of_keys(entries);
            lemma_map_of_entries(entries);
        }
        match self.position(txid, vout) {
            Some(at) => {
                assert(entries[at as int].0 == (txid@, vout));
                assert(has_key(entries, (txid@, vout)));
                assert(map_of(entries)[entries[at as int].0] == entries[at as int].1);
                Some(&self.utxos[at])
            },
            None => None,
        }
    }

    /// How many outputs the index holds.
    pub fn len(&self) -> (n: usize)
        requires
            self.wf(),
        ensures
            n == self@.dom().len(),
    {
        proof {
            lemma_map_of_entries(utxo_entries(self.utxos@));
        }
        self.utxos.len()
    }

    /// The sum of the amounts that `script` locks.
    fn sum_locked_by(&self, script: &[u8]) -> (sum: u128)
        requires
            self.wf(),
        ensures
            sum == balance_of(self@, script@),
    {
        let ghost entries = utxo_entries(self.utxos@);
        let mut sum: u128 = 0;
        let mut i: usize = 0;
        assert(locked_by(map_of(entries.take(0)), script@) =~= Map::<OutPoint, UTXOView>::empty());
        while i < self.utxos.len()
            invariant
                i <= self.utxos@.len(),
                entries == utxo_entries(self.utxos@),
                distinct_keys(entries),
                sum == balance_of(map_of(entries.take(i as int)), script@),
                sum <= i * u64::MAX,
            decreases self.utxos.len() - i,
        {
            let same = same_bytes(self.utxos[i].script_pubkey.as_slice(), script);
            proof {
                lemma_map_of_take_next(entries, i as int);
                lemma_balance_insert_new(
                    map_of(entries.take(i as int)),
                    entries[i as int].0,
                    entries[i as int].1,
                    script@,
                );
            }
            if same {
                sum = sum + self.utxos[i].amount as u128;
            }
            i += 1;
        }
        assert(entries.take(i as int) =~= entries);
        sum
    }

    /// The sum of the amounts of all outputs in the index.
    pub fn total_value(&self) -> (sum: u128)
        requires
            self.wf(),
        ensures
            sum == total_value(self@),
    {
        let ghost entries = utxo_entries(self.utxos@);
        let mut sum: u128 = 0;
        let mut i: usize = 0;
        while i < self.utxos.len()
            invariant
                i <= self.utxos@.len(),
                entries == utxo_entries(self.utxos@),
                distinct_keys(entries),
                sum == total_value(map_of(entries.take(i as int))),
                sum <= i * u64::MAX,
            decreases self.utxos.len() - i,
        {
            proof {
                lemma_map_of_take_next(entries, i as int);
                lemma_total_value_insert_new(
                    map_of(entries.take(i as int)),
                    entries[i as int].0,
                    entries[i as int].1,
                );
            }
            sum = sum + self.utxos[i].amount as u128;
            i += 1;
        }
        assert(entries.take(i as int) =~= entries);
        sum
    }

    /// The sum of the amounts of the outputs whose locking condition is the
    /// bytes of `address`, where that sum fits the result; `None` where it
    /// does not.
    pub fn checked_balance(&self, address: &str) -> (r: Option<u64>)
        requires
            self.wf(),
        ensures
            match r {
                Some(sum) => sum == balance_of(self@, address.spec_bytes()),
                None => balance_of(self@, address.spec_bytes()) > u64::MAX,
            },
    {
        let sum = self.sum_locked_by(address.as_bytes());
        if sum <= u64::MAX as u128 {
            Some(sum as u64)
        } else {
            None
        }
    }

    /// The sum of the amounts of the outputs whose locking condition is the
    /// bytes of `address`.
    pub fn get_balance(&self, address: &str) -> (sum: u64)
        requires
            self.wf(),
            balance_of(self@, address.spec_bytes()) <= u64::MAX,
        ensures
            sum == balance_of(self@, address.spec_bytes()),
    {
        let sum = self.sum_locked_by(address.as_bytes());
        sum as u64
    }

    /// The entries of the index, in no particular order.
    pub fn utxos(&self) -> (entries: &Vec<UTXO>)
        requires
            self.wf(),
        ensures
            distinct_keys(utxo_entries(entries@)),
            map_of(utxo_entries(entries@)) == self@,
    {
        &self.utxos
    }
}

} // verus!
