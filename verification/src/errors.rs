//! The ways in which a ledger operation can fail.

use vstd::prelude::*;

verus! {

/// Why a block cannot follow the tip of the chain.
#[derive(Debug, Clone, Copy, PartialEq, Eq, Structural)]
pub enum BlockFault {
    /// The block does not name the digest of the current tip as its parent.
    BrokenChainLink,
}

/// Every operation of the ledger either succeeds or reports one of these.
#[derive(Debug, Clone, Copy, PartialEq, Eq, Structural)]
pub enum LedgerError {
    /// The bytes handed to a decoder are not the encoding of any value.
    MalformedEncoding,
    /// A Merkle root or a block was asked for over no transactions at all.
    EmptyTransactionSet,
    /// Some input of a transaction names an output that is not in the index.
    UnknownOrSpentInput,
    /// The inputs of a transaction are worth less than its outputs.
    InsufficientInputValue,
    /// The transaction is already waiting in the pool.
    DuplicateTransaction,
    /// The block was not appended, for the reason given.
    InvalidBlock(BlockFault),
    /// No nonce makes the candidate block meet its difficulty.
    ProofOfWorkExhausted,
}

} // verus!
