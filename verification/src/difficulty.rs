//! The proof-of-work target and how the difficulty follows the pace of the
//! chain.

use crate::structures::{blocks_view, Block, BlockView};
use vstd::prelude::*;

verus! {

/// The largest difficulty: the count by which the target is shifted has to
/// stay below the width of the target.
pub const MAX_DIFFICULTY: u32 = 31;

/// The number of blocks after which the difficulty is looked at again.
pub const RETARGET_WINDOW: usize = 10;

/// The number of seconds that a block is meant to take.
pub const TARGET_BLOCK_SECONDS: i64 = 60;

/// The bound below which the leading value of a digest has to stay.
pub open spec fn target(difficulty: u32) -> u32 {
    u32::MAX >> difficulty
}

/// The first four bytes of a digest, read as a big-endian number.
pub open spec fn leading_value(hash: Seq<u8>) -> int {
    hash[0] as int * 0x100_0000 + hash[1] as int * 0x1_0000 + hash[2] as int * 0x100
        + hash[3] as int
}

/// Whether a digest is proof of work at this difficulty.
pub open spec fn meets_difficulty(hash: Seq<u8>, difficulty: u32) -> bool {
    leading_value(hash) < target(difficulty)
}

/// The target shrinks, or stays, as the difficulty grows.
pub proof fn lemma_target_monotonic(easier: u32, harder: u32)
    requires
        easier <= harder <= MAX_DIFFICULTY,
    ensures
        target(harder) <= target(easier),
{
    assert((0xffff_ffffu32 >> harder) <= (0xffff_ffffu32 >> easier)) by (bit_vector)
        requires
            easier <= harder <= 31u32,
    ;
}

/// A digest that is proof of work at one difficulty is proof of work at
/// every lower one: the digests that qualify get fewer as the difficulty
/// grows.
pub proof fn lemma_meets_easier_difficulty(hash: Seq<u8>, easier: u32, harder: u32)
    requires
        easier <= harder <= MAX_DIFFICULTY,
        meets_difficulty(hash, harder),
    ensures
        meets_difficulty(hash, easier),
{
    lemma_target_monotonic(easier, harder);
}

/// At difficulty zero every digest qualifies but those with the largest
/// leading value; at the largest difficulty only those with leading value
/// zero do.
pub proof fn lemma_target_ends()
    ensures
        target(0) == u32::MAX,
        target(MAX_DIFFICULTY) == 1,
{
    assert((0xffff_ffffu32 >> 0u32) == 0xffff_ffffu32) by (bit_vector);
    assert((0xffff_ffffu32 >> 31u32) == 1u32) by (bit_vector);
}

/// Whether `hash` is proof of work at `difficulty`.
pub fn hash_meets_difficulty(hash: &[u8; 32], difficulty: u32) -> (meets: bool)
    requires
        difficulty <= MAX_DIFFICULTY,
    ensures
        meets == meets_difficulty(hash@, difficulty),
{
    let target: u32 = u32::MAX >> difficulty;
    let value: u32 = (hash[0] as u32) * 0x100_0000 + (hash[1] as u32) * 0x1_0000 + (
    hash[2] as u32) * 0x100 + (hash[3] as u32);
    value < target
}

/// `d`, or the nearest difficulty that a block may have.
pub open spec fn clamp_difficulty(d: int) -> u32 {
    if d < 1 {
        1
    } else if d > MAX_DIFFICULTY {
        MAX_DIFFICULTY
    } else {
        d as u32
    }
}

/// The difficulty of the block that comes after `chain`.
///
/// Until the chain holds a full window of blocks it is 1. After that it is
/// the difficulty of the tip, but whenever the length of the chain is a
/// multiple of the window, the time between the first and the last block of
/// the last window is held against the time that a window is meant to take:
/// under half of it, the difficulty goes up by one; over twice, it goes down
/// by one. It never leaves the range from 1 to `MAX_DIFFICULTY`.
pub open spec fn next_difficulty(chain: Seq<BlockView>) -> u32 {
    if chain.len() < RETARGET_WINDOW {
        1
    } else {
        let previous = chain.last().header.difficulty as int;
        if chain.len() % (RETARGET_WINDOW as nat) != 0 {
            clamp_difficulty(previous)
        } else {
            let first = chain[chain.len() - RETARGET_WINDOW];
            let elapsed = chain.last().header.timestamp - first.header.timestamp;
            let expected = TARGET_BLOCK_SECONDS * RETARGET_WINDOW;
            if 2 * elapsed < expected {
                clamp_difficulty(previous + 1)
            } else if elapsed > 2 * expected {
                clamp_difficulty(previous - 1)
            } else {
                clamp_difficulty(previous)
            }
        }
    }
}

/// The difficulty is always one that a block may have.
pub proof fn lemma_next_difficulty_in_range(chain: Seq<BlockView>)
    ensures
        1 <= next_difficulty(chain) <= MAX_DIFFICULTY,
{
}

fn clamp(d: i64) -> (r: u32)
    ensures
        r == clamp_difficulty(d as int),
{
    if d < 1 {
        1
    } else if d > MAX_DIFFICULTY as i64 {
        MAX_DIFFICULTY
    } else {
        d as u32
    }
}

/// The difficulty of the block that comes after `chain`.
pub fn retarget(chain: &Vec<Block>) -> (difficulty: u32)
    ensures
        difficulty == next_difficulty(blocks_view(chain@)),
        1 <= difficulty <= MAX_DIFFICULTY,
{
    let n = chain.len();
    if n < RETARGET_WINDOW {
        return 1;
    }
    let previous = chain[n - 1].header.difficulty as i64;
    if n % RETARGET_WINDOW != 0 {
        return clamp(previous);
    }
    let last = chain[n - 1].header.timestamp as i128;
    let first = chain[n - RETARGET_WINDOW].header.timestamp as i128;
    let elapsed: i128 = last - first;
    let expected: i128 = (TARGET_BLOCK_SECONDS as i128) * (RETARGET_WINDOW as i128);
    if 2 * elapsed < expected {
        clamp(previous + 1)
    } else if elapsed > 2 * expected {
        clamp(previous - 1)
    } else {
        clamp(previous)
    }
}

} // verus!
