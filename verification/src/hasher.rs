//! The 256-bit digest that names transactions and blocks.

use crate::format::{block_encoding, transaction_encoding};
use crate::structures::{Block, BlockView, Transaction, TransactionView, DIGEST_LEN};
use sha2::Digest;
use vstd::prelude::*;

verus! {

/// The SHA-256 digest of a byte sequence, as computed by the `sha2` crate.
pub uninterp spec fn sha256(data: Seq<u8>) -> Seq<u8>;

/// Calls `sha2::Sha256::digest`. The contract only gives the result its name:
/// the 32 bytes returned are the SHA-256 digest of exactly the bytes passed in.
#[verifier::external_body]
fn sha256_bytes(data: &[u8]) -> (out: [u8; 32])
    ensures
        out@ == sha256(data@),
{
    sha2::Sha256::digest(data).into()
}

/// The identity of a transaction: the digest of its encoding.
pub open spec fn transaction_id(tx: TransactionView) -> Seq<u8> {
    sha256(transaction_encoding(tx))
}

/// The identity of a block: the digest of its encoding, header and body.
pub open spec fn block_id(block: BlockView) -> Seq<u8> {
    sha256(block_encoding(block))
}

/// Digest of `data`.
pub fn digest(data: &[u8]) -> (out: [u8; 32])
    ensures
        out@ == sha256(data@),
        out@.len() == DIGEST_LEN,
{
    sha256_bytes(data)
}

/// Digest of the canonical encoding of `tx`.
pub fn transaction_hash(tx: &Transaction) -> (out: [u8; 32])
    ensures
        out@ == transaction_id(tx@),
{
    let bytes = tx.serialize();
    digest(bytes.as_slice())
}

/// Digest of the canonical encoding of `block`.
pub fn block_hash(block: &Block) -> (out: [u8; 32])
    ensures
        out@ == block_id(block@),
{
    let bytes = block.serialize();
    digest(bytes.as_slice())
}

/// Whether two digests are the same, byte for byte.
pub fn same_digest(a: &[u8; 32], b: &[u8; 32]) -> (same: bool)
    ensures
        same == (a@ == b@),
{
    let mut i: usize = 0;
    while i < 32
        invariant
            i <= 32,
            forall|k: int| 0 <= k < i ==> a@[k] == b@[k],
        decreases 32 - i,
    {
        if a[i] != b[i] {
            return false;
        }
        i += 1;
    }
    assert(a@ =~= b@);
    true
}

} // verus!
