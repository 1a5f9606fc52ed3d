use ledger::errors::LedgerError;
use ledger::hasher::{block_hash, digest, transaction_hash};
use ledger::structures::{Block, BlockHeader, Transaction, TransactionInput, TransactionOutput};

fn sample_transaction() -> Transaction {
    Transaction {
        inputs: vec![
            TransactionInput { txid: [7u8; 32], vout: 3, script_sig: vec![1, 2, 3, 4, 5] },
            TransactionInput { txid: [0xabu8; 32], vout: 0x0102_0304, script_sig: vec![] },
        ],
        outputs: vec![
            TransactionOutput { value: 25_000_000_000, script_pubkey: b"A".to_vec() },
            TransactionOutput { value: 0x0102_0304_0506_0708, script_pubkey: b"somebody".to_vec() },
        ],
    }
}

fn sample_block() -> Block {
    Block {
        header: BlockHeader {
            version: -2,
            prev_block_hash: [9u8; 32],
            merkle_root: [8u8; 32],
            timestamp: -1_700_000_000,
            difficulty: 5,
            nonce: 0xdead_beef,
        },
        transactions: vec![
            sample_transaction(),
            Transaction { inputs: vec![], outputs: vec![] },
        ],
    }
}

type PlainInput = ([u8; 32], u32, Vec<u8>);
type PlainOutput = (u64, Vec<u8>);
type PlainTransaction = (Vec<PlainInput>, Vec<PlainOutput>);

fn plain(tx: &Transaction) -> PlainTransaction {
    (
        tx.inputs.iter().map(|i| (i.txid, i.vout, i.script_sig.clone())).collect(),
        tx.outputs.iter().map(|o| (o.value, o.script_pubkey.clone())).collect(),
    )
}

#[test]
fn transaction_round_trip() {
    let tx = sample_transaction();
    let bytes = tx.serialize();
    let back = Transaction::deserialize(&bytes);
    assert_eq!(back, Ok(tx));
}

#[test]
fn empty_transaction_round_trip() {
    let tx = Transaction { inputs: vec![], outputs: vec![] };
    let bytes = tx.serialize();
    assert_eq!(bytes, vec![0u8; 16]);
    assert_eq!(Transaction::deserialize(&bytes), Ok(tx));
}

#[test]
fn block_round_trip() {
    let block = sample_block();
    let bytes = block.serialize();
    let back = Block::deserialize(&bytes);
    assert_eq!(back, Ok(block));
}

#[test]
fn transaction_encoding_is_exact() {
    let tx = Transaction {
        inputs: vec![TransactionInput { txid: [0x11u8; 32], vout: 0x0102_0304, script_sig: vec![0xaa, 0xbb] }],
        outputs: vec![TransactionOutput { value: 0x0102_0304_0506_0708, script_pubkey: vec![0xcc] }],
    };
    let mut expected: Vec<u8> = Vec::new();
    expected.extend_from_slice(&[1, 0, 0, 0, 0, 0, 0, 0]);
    expected.extend_from_slice(&[0x11u8; 32]);
    expected.extend_from_slice(&[0x04, 0x03, 0x02, 0x01]);
    expected.extend_from_slice(&[2, 0, 0, 0, 0, 0, 0, 0]);
    expected.extend_from_slice(&[0xaa, 0xbb]);
    expected.extend_from_slice(&[1, 0, 0, 0, 0, 0, 0, 0]);
    expected.extend_from_slice(&[0x08, 0x07, 0x06, 0x05, 0x04, 0x03, 0x02, 0x01]);
    expected.extend_from_slice(&[1, 0, 0, 0, 0, 0, 0, 0]);
    expected.extend_from_slice(&[0xcc]);
    assert_eq!(tx.serialize(), expected);
}

#[test]
fn header_encoding_is_exact() {
    let block = Block {
        header: BlockHeader {
            version: -1,
            prev_block_hash: [1u8; 32],
            merkle_root: [2u8; 32],
            timestamp: -2,
            difficulty: 3,
            nonce: 0x0a0b_0c0d,
        },
        transactions: vec![],
    };
    let mut expected: Vec<u8> = Vec::new();
    expected.extend_from_slice(&[0xff, 0xff, 0xff, 0xff]);
    expected.extend_from_slice(&[1u8; 32]);
    expected.extend_from_slice(&[2u8; 32]);
    expected.extend_from_slice(&[0xfe, 0xff, 0xff, 0xff, 0xff, 0xff, 0xff, 0xff]);
    expected.extend_from_slice(&[3, 0, 0, 0]);
    expected.extend_from_slice(&[0x0d, 0x0c, 0x0b, 0x0a]);
    expected.extend_from_slice(&[0, 0, 0, 0, 0, 0, 0, 0]);
    assert_eq!(block.serialize(), expected);
    assert_eq!(expected.len(), 84 + 8);
}

#[test]
fn transaction_encoding_agrees_with_bincode() {
    let tx = sample_transaction();
    let expected = bincode::serialize(&plain(&tx)).unwrap();
    assert_eq!(tx.serialize(), expected);
}

#[test]
fn block_encoding_agrees_with_bincode() {
    let block = sample_block();
    let h = &block.header;
    let plain_block = (
        (h.version, h.prev_block_hash, h.merkle_root, h.timestamp, h.difficulty, h.nonce),
        block.transactions.iter().map(plain).collect::<Vec<PlainTransaction>>(),
    );
    let expected = bincode::serialize(&plain_block).unwrap();
    assert_eq!(block.serialize(), expected);
}

#[test]
fn truncated_transaction_is_malformed() {
    let bytes = sample_transaction().serialize();
    for cut in 0..bytes.len() {
        assert_eq!(
            Transaction::deserialize(&bytes[..cut]),
            Err(LedgerError::MalformedEncoding),
            "cut at {}",
            cut
        );
    }
}

#[test]
fn trailing_bytes_are_malformed() {
    let mut bytes = sample_transaction().serialize();
    bytes.push(0);
    assert_eq!(Transaction::deserialize(&bytes), Err(LedgerError::MalformedEncoding));
    let mut block_bytes = sample_block().serialize();
    block_bytes.push(0);
    assert_eq!(Block::deserialize(&block_bytes), Err(LedgerError::MalformedEncoding));
}

#[test]
fn wrong_count_is_malformed() {
    let mut bytes = sample_transaction().serialize();
    bytes[0] = 3;
    assert_eq!(Transaction::deserialize(&bytes), Err(LedgerError::MalformedEncoding));
    let mut huge = sample_transaction().serialize();
    for b in huge.iter_mut().take(8) {
        *b = 0xff;
    }
    assert_eq!(Transaction::deserialize(&huge), Err(LedgerError::MalformedEncoding));
}

#[test]
fn truncated_block_is_malformed() {
    let bytes = sample_block().serialize();
    for cut in 0..bytes.len() {
        assert_eq!(Block::deserialize(&bytes[..cut]), Err(LedgerError::MalformedEncoding));
    }
    assert_eq!(Block::deserialize(&[]), Err(LedgerError::MalformedEncoding));
}

#[test]
fn digest_is_sha256() {
    let expected = hex::decode("ba7816bf8f01cfea414140de5dae2223b00361a396177a9cb410ff61f20015ad")
        .unwrap();
    assert_eq!(digest(b"abc").to_vec(), expected);
    let empty = hex::decode("e3b0c44298fc1c149afbf4c8996fb92427ae41e4649b934ca495991b7852b855")
        .unwrap();
    assert_eq!(digest(b"").to_vec(), empty);
}

#[test]
fn identities_are_digests_of_encodings() {
    let tx = sample_transaction();
    assert_eq!(transaction_hash(&tx), digest(&tx.serialize()));
    let block = sample_block();
    assert_eq!(block_hash(&block), digest(&block.serialize()));
    let mut other = sample_block();
    other.header.nonce += 1;
    assert_ne!(block_hash(&block), block_hash(&other));
}
