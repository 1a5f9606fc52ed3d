use ledger::errors::LedgerError;
use ledger::hasher::digest;
use ledger::merkle_tree::MerkleTree;

fn leaf(n: u8) -> [u8; 32] {
    digest(&[n])
}

fn pair(a: &[u8; 32], b: &[u8; 32]) -> [u8; 32] {
    let mut joined = a.to_vec();
    joined.extend_from_slice(b);
    digest(&joined)
}

#[test]
fn root_of_nothing_fails() {
    let none: Vec<[u8; 32]> = vec![];
    assert!(matches!(MerkleTree::new(&none), Err(LedgerError::EmptyTransactionSet)));
}

#[test]
fn root_of_one_is_the_digest() {
    let a = leaf(1);
    assert_eq!(MerkleTree::new(&vec![a]).unwrap().root, a);
}

#[test]
fn root_of_two_is_digest_of_pair() {
    let (a, b) = (leaf(1), leaf(2));
    assert_eq!(MerkleTree::new(&vec![a, b]).unwrap().root, pair(&a, &b));
}

#[test]
fn reordering_changes_the_root() {
    let (a, b) = (leaf(1), leaf(2));
    let ab = MerkleTree::new(&vec![a, b]).unwrap().root;
    let ba = MerkleTree::new(&vec![b, a]).unwrap().root;
    assert_ne!(ab, ba);
    let aa = MerkleTree::new(&vec![a, a]).unwrap().root;
    assert_eq!(aa, pair(&a, &a));
}

#[test]
fn odd_digest_is_promoted_unchanged() {
    let (a, b, c) = (leaf(1), leaf(2), leaf(3));
    let root = MerkleTree::new(&vec![a, b, c]).unwrap().root;
    assert_eq!(root, pair(&pair(&a, &b), &c));
    assert_ne!(root, pair(&pair(&a, &b), &pair(&c, &c)));
}

#[test]
fn root_of_five() {
    let l: Vec<[u8; 32]> = (0..5).map(leaf).collect();
    let level1 = vec![pair(&l[0], &l[1]), pair(&l[2], &l[3]), l[4]];
    let level2 = vec![pair(&level1[0], &level1[1]), level1[2]];
    let root = pair(&level2[0], &level2[1]);
    assert_eq!(MerkleTree::new(&l).unwrap().root, root);
    assert_eq!(MerkleTree::get_parent_hashes(&l), level1);
    assert_eq!(MerkleTree::get_parent_hashes(&level1), level2);
}

#[test]
fn root_is_a_function_of_the_digests() {
    let l: Vec<[u8; 32]> = (0..7).map(leaf).collect();
    let again: Vec<[u8; 32]> = (0..7).map(leaf).collect();
    assert_eq!(MerkleTree::new(&l).unwrap().root, MerkleTree::new(&again).unwrap().root);
}

#[test]
fn parents_of_nothing_are_nothing() {
    let none: Vec<[u8; 32]> = vec![];
    assert!(MerkleTree::get_parent_hashes(&none).is_empty());
}
