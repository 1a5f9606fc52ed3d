//! Folding an ordered list of digests into one root digest.

use crate::errors::LedgerError;
use crate::hasher::{digest, sha256};
use vstd::prelude::*;

verus! {

/// The byte sequences that a list of digests stands for.
pub open spec fn digests_view(items: Seq<[u8; 32]>) -> Seq<Seq<u8>> {
    Seq::new(items.len(), |i: int| items[i]@)
}

/// The level above `level`: each pair of neighbours, taken from the left, is
/// replaced by the digest of the two joined; a last digest without a
/// neighbour moves up as it is.
pub open spec fn parent_level(level: Seq<Seq<u8>>) -> Seq<Seq<u8>> {
    Seq::new(
        ((level.len() + 1) / 2) as nat,
        |i: int|
            if 2 * i + 1 < level.len() {
                sha256(level[2 * i] + level[2 * i + 1])
            } else {
                level[2 * i]
            },
    )
}

/// The one digest that remains when the levels above `level` are taken until
/// a single digest is left. Of no digests there is no root; the empty
/// sequence stands in for it.
pub open spec fn merkle_root(level: Seq<Seq<u8>>) -> Seq<u8>
    decreases level.len(),
{
    if level.len() == 0 {
        Seq::empty()
    } else if level.len() == 1 {
        level[0]
    } else {
        merkle_root(parent_level(level))
    }
}

/// The root of a single digest is that digest.
pub proof fn lemma_merkle_root_of_one(a: Seq<u8>)
    ensures
        merkle_root(seq![a]) == a,
{
}

/// The root of two digests is the digest of the first followed by the second.
pub proof fn lemma_merkle_root_of_two(a: Seq<u8>, b: Seq<u8>)
    ensures
        merkle_root(seq![a, b]) == sha256(a + b),
{
    let level = seq![a, b];
    assert(parent_level(level) =~= seq![sha256(a + b)]);
    reveal_with_fuel(merkle_root, 2);
}

/// The root of three digests: the first two are paired, the third moves up
/// unchanged and is paired with their digest.
pub proof fn lemma_merkle_root_of_three(a: Seq<u8>, b: Seq<u8>, c: Seq<u8>)
    ensures
        merkle_root(seq![a, b, c]) == sha256(sha256(a + b) + c),
{
    let level = seq![a, b, c];
    assert(parent_level(level) =~= seq![sha256(a + b), c]);
    lemma_merkle_root_of_two(sha256(a + b), c);
}

/// The root over an ordered list of digests.
pub struct MerkleTree {
    pub root: [u8; 32],
}

impl MerkleTree {
    /// The tree over `transactions`, the digests of a block's transactions in
    /// their order. Fails on an empty list.
    pub fn new(transactions: &Vec<[u8; 32]>) -> (r: Result<MerkleTree, LedgerError>)
        ensures
            match r {
                Ok(tree) => transactions@.len() > 0 && tree.root@ == merkle_root(
                    digests_view(transactions@),
                ),
                Err(e) => e == LedgerError::EmptyTransactionSet && transactions@.len() == 0,
            },
    {
        if transactions.len() == 0 {
            return Err(LedgerError::EmptyTransactionSet);
        }
        if transactions.len() == 1 {
            return Ok(MerkleTree { root: transactions[0] });
        }
        let mut hashes = Self::get_parent_hashes(transactions);
        while hashes.len() > 1
            invariant
                hashes@.len() > 0,
                merkle_root(digests_view(hashes@)) == merkle_root(digests_view(transactions@)),
            decreases hashes@.len(),
        {
            hashes = Self::get_parent_hashes(&hashes);
        }
        Ok(MerkleTree { root: hashes[0] })
    }

    /// The level above `hashes`.
    pub fn get_parent_hashes(hashes: &Vec<[u8; 32]>) -> (parents: Vec<[u8; 32]>)
        ensures
            digests_view(parents@) == parent_level(digests_view(hashes@)),
            parents@.len() == (hashes@.len() + 1) / 2,
    {
        let n = hashes.len();
        let count = n / 2 + n % 2;
        let mut parents: Vec<[u8; 32]> = Vec::new();
        let mut k: usize = 0;
        while k < count
            invariant
                n == hashes@.len(),
                count == (n + 1) / 2,
                k <= count,
                parents@.len() == k,
                forall|j: int|
                    0 <= j < k ==> (#[trigger] parents@[j])@ == parent_level(
                        digests_view(hashes@),
                    )[j],
            decreases count - k,
        {
            let left = 2 * k;
            if n - left >= 2 {
                parents.push(Self::hash(&hashes[left], &hashes[left + 1]));
            } else {
                parents.push(hashes[left]);
            }
            k += 1;
        }
        assert(digests_view(parents@) =~= parent_level(digests_view(hashes@)));
        parents
    }

    /// The digest of `left` followed by `right`.
    fn hash(left: &[u8; 32], right: &[u8; 32]) -> (parent: [u8; 32])
        ensures
            parent@ == sha256(left@ + right@),
    {
        let mut joined: Vec<u8> = Vec::new();
        let mut i: usize = 0;
        while i < 32
            invariant
                i <= 32,
                joined@ == left@.take(i as int),
            decreases 32 - i,
        {
            joined.push(left[i]);
            i += 1;
        }
        let mut j: usize = 0;
        while j < 32
            invariant
                j <= 32,
                joined@ == left@ + right@.take(j as int),
            decreases 32 - j,
        {
            joined.push(right[j]);
            j += 1;
        }
        assert(right@.take(32) =~= right@);
        digest(joined.as_slice())
    }
}

} // verus!
