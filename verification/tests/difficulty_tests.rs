use ledger::blockchain::Blockchain;
use ledger::difficulty::{hash_meets_difficulty, retarget, MAX_DIFFICULTY};
use ledger::structures::{Block, BlockHeader};

fn hash_with_lead(lead: [u8; 4]) -> [u8; 32] {
    let mut h = [0x55u8; 32];
    h[..4].copy_from_slice(&lead);
    h
}

fn block_at(timestamp: i64, difficulty: u32) -> Block {
    Block {
        header: BlockHeader {
            version: 1,
            prev_block_hash: [0u8; 32],
            merkle_root: [0u8; 32],
            timestamp,
            difficulty,
            nonce: 0,
        },
        transactions: vec![],
    }
}

fn chain_of(n: usize, first: i64, step: i64, difficulty: u32) -> Vec<Block> {
    (0..n).map(|i| block_at(first + step * i as i64, difficulty)).collect()
}

#[test]
fn target_is_max_shifted_right() {
    // difficulty 1: target 0x7fff_ffff
    assert!(hash_meets_difficulty(&hash_with_lead([0x7f, 0xff, 0xff, 0xfe]), 1));
    assert!(!hash_meets_difficulty(&hash_with_lead([0x7f, 0xff, 0xff, 0xff]), 1));
    assert!(!hash_meets_difficulty(&hash_with_lead([0x80, 0x00, 0x00, 0x00]), 1));
    // difficulty 8: target 0x00ff_ffff
    assert!(hash_meets_difficulty(&hash_with_lead([0x00, 0xff, 0xff, 0xfe]), 8));
    assert!(!hash_meets_difficulty(&hash_with_lead([0x00, 0xff, 0xff, 0xff]), 8));
    assert!(!hash_meets_difficulty(&hash_with_lead([0x01, 0x00, 0x00, 0x00]), 8));
}

#[test]
fn leading_bytes_are_big_endian() {
    // 0x0000_0100 < 0x00ff_ffff, 0x0100_0000 is not
    assert!(hash_meets_difficulty(&hash_with_lead([0x00, 0x00, 0x01, 0x00]), 8));
    assert!(!hash_meets_difficulty(&hash_with_lead([0x01, 0x00, 0x00, 0x00]), 8));
    assert!(hash_meets_difficulty(&hash_with_lead([0x00, 0x00, 0x00, 0x01]), 30));
    assert!(!hash_meets_difficulty(&hash_with_lead([0x01, 0x00, 0x00, 0x00]), 30));
}

#[test]
fn difficulty_zero_excludes_only_the_top_value() {
    assert!(hash_meets_difficulty(&hash_with_lead([0xff, 0xff, 0xff, 0xfe]), 0));
    assert!(!hash_meets_difficulty(&hash_with_lead([0xff, 0xff, 0xff, 0xff]), 0));
    assert!(hash_meets_difficulty(&hash_with_lead([0, 0, 0, 0]), 0));
}

#[test]
fn largest_difficulty_admits_only_zero() {
    assert!(hash_meets_difficulty(&hash_with_lead([0, 0, 0, 0]), MAX_DIFFICULTY));
    assert!(!hash_meets_difficulty(&hash_with_lead([0, 0, 0, 1]), MAX_DIFFICULTY));
}

#[test]
fn harder_difficulty_admits_fewer() {
    let leads: [[u8; 4]; 6] = [
        [0, 0, 0, 0],
        [0, 0, 0, 1],
        [0, 0x12, 0x34, 0x56],
        [0x3f, 0xff, 0xff, 0xff],
        [0x7f, 0xff, 0xff, 0xff],
        [0xff, 0xff, 0xff, 0xff],
    ];
    for lead in leads.iter() {
        let h = hash_with_lead(*lead);
        for d in 1..=MAX_DIFFICULTY {
            if hash_meets_difficulty(&h, d) {
                assert!(hash_meets_difficulty(&h, d - 1));
            }
        }
    }
    let ledger = Blockchain::with_genesis_time(0);
    let h = hash_with_lead([0x3f, 0xff, 0xff, 0xff]);
    assert!(ledger.calculate_hash_meets_difficulty(&h, 1));
    assert!(!ledger.calculate_hash_meets_difficulty(&h, 2));
}

#[test]
fn difficulty_is_one_before_the_first_window() {
    for n in 1..10 {
        assert_eq!(retarget(&chain_of(n, 1000, 1, 7)), 1);
    }
    assert_eq!(Blockchain::with_genesis_time(5).adjust_difficulty(), 1);
}

#[test]
fn fast_window_raises_the_difficulty() {
    // ten blocks in 9 * 10 = 90 seconds: under half of 600
    assert_eq!(retarget(&chain_of(10, 1000, 10, 1)), 2);
    // elapsed 297 < 300
    assert_eq!(retarget(&chain_of(10, 0, 33, 4)), 5);
    assert_eq!(retarget(&chain_of(20, 0, 33, 4)), 5);
}

#[test]
fn slow_window_lowers_the_difficulty() {
    // elapsed 9 * 134 = 1206 > 1200
    assert_eq!(retarget(&chain_of(10, 0, 134, 4)), 3);
    // floored at one
    assert_eq!(retarget(&chain_of(10, 0, 134, 1)), 1);
    assert_eq!(retarget(&chain_of(10, 0, 134, 0)), 1);
}

#[test]
fn steady_window_keeps_the_difficulty() {
    // elapsed 9 * 60 = 540: between 300 and 1200
    assert_eq!(retarget(&chain_of(10, 0, 60, 4)), 4);
    // the bounds themselves change nothing: 2 * 150 = 300 is not under 300
    let mut at_half = chain_of(10, 0, 1, 4);
    at_half[9].header.timestamp = 300;
    assert_eq!(retarget(&at_half), 4);
    at_half[9].header.timestamp = 299;
    assert_eq!(retarget(&at_half), 5);
    let mut at_double = chain_of(10, 0, 1, 4);
    at_double[9].header.timestamp = 1200;
    assert_eq!(retarget(&at_double), 4);
    at_double[9].header.timestamp = 1201;
    assert_eq!(retarget(&at_double), 3);
}

#[test]
fn between_windows_the_tip_decides() {
    assert_eq!(retarget(&chain_of(11, 0, 1, 6)), 6);
    assert_eq!(retarget(&chain_of(19, 0, 1000, 6)), 6);
    assert_eq!(retarget(&chain_of(11, 0, 1, 0)), 1);
    assert_eq!(retarget(&chain_of(11, 0, 1, 77)), MAX_DIFFICULTY);
}

#[test]
fn difficulty_stays_in_range() {
    assert_eq!(retarget(&chain_of(10, 0, 1, 31)), MAX_DIFFICULTY);
    assert_eq!(retarget(&chain_of(10, 0, 1, u32::MAX)), MAX_DIFFICULTY);
    let mut extreme = chain_of(10, 0, 0, 5);
    extreme[0].header.timestamp = i64::MAX;
    extreme[9].header.timestamp = i64::MIN;
    assert_eq!(retarget(&extreme), 6);
    extreme[0].header.timestamp = i64::MIN;
    extreme[9].header.timestamp = i64::MAX;
    assert_eq!(retarget(&extreme), 4);
}
