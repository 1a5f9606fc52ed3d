use ledger::utxo::{UTXOSet, UTXO};

fn utxo(tag: u8, vout: u32, amount: u64, owner: &str) -> UTXO {
    UTXO { txid: [tag; 32], vout, amount, script_pubkey: owner.as_bytes().to_vec() }
}

#[test]
fn new_index_is_empty() {
    let set = UTXOSet::new();
    assert_eq!(set.len(), 0);
    assert_eq!(set.total_value(), 0);
    assert_eq!(set.get_balance("anyone"), 0);
    assert!(set.get_utxo(&[0u8; 32], 0).is_none());
}

#[test]
fn add_then_get() {
    let mut set = UTXOSet::new();
    set.add_utxo(utxo(1, 0, 10, "alice"));
    set.add_utxo(utxo(1, 1, 20, "bob"));
    set.add_utxo(utxo(2, 0, 30, "alice"));
    assert_eq!(set.len(), 3);
    assert_eq!(set.get_utxo(&[1u8; 32], 1), Some(&utxo(1, 1, 20, "bob")));
    assert_eq!(set.get_utxo(&[2u8; 32], 0), Some(&utxo(2, 0, 30, "alice")));
    assert!(set.get_utxo(&[2u8; 32], 1).is_none());
    assert!(set.get_utxo(&[3u8; 32], 0).is_none());
}

#[test]
fn add_under_a_live_key_replaces() {
    let mut set = UTXOSet::new();
    set.add_utxo(utxo(1, 0, 10, "alice"));
    set.add_utxo(utxo(1, 0, 99, "bob"));
    assert_eq!(set.len(), 1);
    assert_eq!(set.get_utxo(&[1u8; 32], 0), Some(&utxo(1, 0, 99, "bob")));
    assert_eq!(set.total_value(), 99);
    assert_eq!(set.get_balance("alice"), 0);
}

#[test]
fn remove_returns_the_entry_once() {
    let mut set = UTXOSet::new();
    set.add_utxo(utxo(1, 0, 10, "alice"));
    set.add_utxo(utxo(1, 1, 20, "bob"));
    assert_eq!(set.remove_utxo(&[1u8; 32], 0), Some(utxo(1, 0, 10, "alice")));
    assert_eq!(set.remove_utxo(&[1u8; 32], 0), None);
    assert_eq!(set.remove_utxo(&[9u8; 32], 0), None);
    assert_eq!(set.len(), 1);
    assert_eq!(set.get_utxo(&[1u8; 32], 1), Some(&utxo(1, 1, 20, "bob")));
}

#[test]
fn balance_sums_by_locking_condition() {
    let mut set = UTXOSet::new();
    set.add_utxo(utxo(1, 0, 10, "alice"));
    set.add_utxo(utxo(1, 1, 20, "bob"));
    set.add_utxo(utxo(2, 0, 30, "alice"));
    set.add_utxo(utxo(3, 7, 5, "alic"));
    assert_eq!(set.get_balance("alice"), 40);
    assert_eq!(set.get_balance("bob"), 20);
    assert_eq!(set.get_balance("alic"), 5);
    assert_eq!(set.get_balance("carol"), 0);
    assert_eq!(set.get_balance(""), 0);
    assert_eq!(set.total_value(), 65);
    assert_eq!(set.checked_balance("alice"), Some(40));
}

#[test]
fn balance_compares_bytes() {
    let mut set = UTXOSet::new();
    set.add_utxo(UTXO { txid: [1u8; 32], vout: 0, amount: 7, script_pubkey: vec![0xff, 0xfe] });
    set.add_utxo(UTXO { txid: [1u8; 32], vout: 1, amount: 9, script_pubkey: "\u{fffd}".as_bytes().to_vec() });
    assert_eq!(set.get_balance("\u{fffd}"), 9);
    assert_eq!(set.get_balance("\u{fffd}\u{fffd}"), 0);
}

#[test]
fn balance_that_does_not_fit_is_reported() {
    let mut set = UTXOSet::new();
    set.add_utxo(utxo(1, 0, u64::MAX, "alice"));
    assert_eq!(set.checked_balance("alice"), Some(u64::MAX));
    set.add_utxo(utxo(1, 1, 1, "alice"));
    assert_eq!(set.checked_balance("alice"), None);
    assert_eq!(set.checked_balance("bob"), Some(0));
    assert_eq!(set.total_value(), u64::MAX as u128 + 1);
}

#[test]
fn entries_are_listed() {
    let mut set = UTXOSet::new();
    set.add_utxo(utxo(1, 0, 10, "alice"));
    set.add_utxo(utxo(2, 0, 30, "alice"));
    let mut keys: Vec<([u8; 32], u32)> = set.utxos().iter().map(|u| (u.txid, u.vout)).collect();
    keys.sort();
    assert_eq!(keys, vec![([1u8; 32], 0), ([2u8; 32], 0)]);
}
