//! A minimal single-node ledger: an append-only chain of blocks of
//! value-transfer transactions, checked against an index of unspent outputs,
//! with a pool of pending transactions and a proof-of-work search.

pub mod assoc;
pub mod block;
pub mod blockchain;
pub mod format;
pub mod codec;
pub mod difficulty;
pub mod errors;
pub mod hasher;
pub mod mempool;
pub mod operator;
pub mod merkle_tree;
pub mod rules;
pub mod structures;
pub mod utxo;
pub mod wallet;
