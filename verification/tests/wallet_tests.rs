use ledger::operator::{build_transfer, parse_choice, wallet_position, MenuChoice};
use ledger::utxo::UTXOSet;
use ledger::wallet::Wallet;
use sha2::{Digest, Sha256};

fn secret(last: u8) -> [u8; 32] {
    let mut bytes = [0u8; 32];
    bytes[31] = last;
    bytes
}

fn expected_address(public_key: &[u8]) -> String {
    let key_digest = Sha256::digest(public_key);
    let mut payload = vec![0u8];
    payload.extend_from_slice(&key_digest[..20]);
    let checksum = Sha256::digest(Sha256::digest(&payload));
    payload.extend_from_slice(&checksum[..4]);
    bs58::encode(payload).into_string()
}

#[test]
fn public_key_of_one_is_the_generator() {
    let wallet = Wallet::from_secret_key(secret(1)).unwrap();
    let expected =
        hex::decode("0279be667ef9dcbbac55a06295ce870b07029bfcdb2dce28d959f2815b16f81798").unwrap();
    assert_eq!(wallet.public_key().to_vec(), expected);
}

#[test]
fn zero_is_no_secret_key() {
    assert!(Wallet::from_secret_key([0u8; 32]).is_none());
    // the order of the curve itself, and everything above it, is none either
    assert!(Wallet::from_secret_key([0xffu8; 32]).is_none());
}

#[test]
fn address_is_base58_of_version_digest_and_checksum() {
    for last in [1u8, 2, 77] {
        let wallet = Wallet::from_secret_key(secret(last)).unwrap();
        let address = wallet.get_address();
        assert_eq!(address, expected_address(wallet.public_key()));
        // the version byte is zero, which base 58 writes as a leading 1
        assert!(address.starts_with('1'));
        let payload = bs58::decode(&address).into_vec().unwrap();
        assert_eq!(payload.len(), 25);
        assert_eq!(payload[0], 0);
    }
    let one = Wallet::from_secret_key(secret(1)).unwrap().get_address();
    let two = Wallet::from_secret_key(secret(2)).unwrap().get_address();
    assert_ne!(one, two);
}

#[test]
fn signature_verifies_and_is_repeatable() {
    let wallet = Wallet::from_secret_key(secret(5)).unwrap();
    let message = [0x42u8; 32];
    let der = wallet.sign_transaction(&message).unwrap();
    assert_eq!(wallet.sign_transaction(&message), Some(der.clone()));
    assert_ne!(wallet.sign_transaction(&[0x43u8; 32]), Some(der.clone()));
    let context = secp256k1::Secp256k1::verification_only();
    let signature = secp256k1::Signature::from_der(&der).unwrap();
    let key = secp256k1::PublicKey::from_slice(wallet.public_key()).unwrap();
    let digest = secp256k1::Message::from_slice(&message).unwrap();
    assert!(context.verify(&digest, &signature, &key).is_ok());
    let other = secp256k1::Message::from_slice(&[0x43u8; 32]).unwrap();
    assert!(context.verify(&other, &signature, &key).is_err());
}

#[test]
fn new_wallets_differ() {
    let a = Wallet::new().unwrap();
    let b = Wallet::new().unwrap();
    assert_ne!(a.public_key(), b.public_key());
    assert_ne!(a.get_address(), b.get_address());
    assert!(a.public_key()[0] == 2 || a.public_key()[0] == 3);
}

#[test]
fn menu_choices() {
    assert_eq!(parse_choice("1"), MenuChoice::CreateWallet);
    assert_eq!(parse_choice("2"), MenuChoice::ListWallets);
    assert_eq!(parse_choice("3"), MenuChoice::SendTransaction);
    assert_eq!(parse_choice("4"), MenuChoice::MineBlock);
    assert_eq!(parse_choice("5"), MenuChoice::PrintBlockchainInfo);
    assert_eq!(parse_choice("6"), MenuChoice::PrintWalletBalance);
    assert_eq!(parse_choice("7"), MenuChoice::Exit);
    for other in ["", "0", "8", "9", "11", " 1", "1 ", "one", "\u{ff11}", "a"] {
        assert_eq!(parse_choice(other), MenuChoice::Invalid, "{:?}", other);
    }
}

#[test]
fn wallets_are_numbered_from_one() {
    assert_eq!(wallet_position(1, 3), Some(0));
    assert_eq!(wallet_position(3, 3), Some(2));
    assert_eq!(wallet_position(0, 3), None);
    assert_eq!(wallet_position(4, 3), None);
    assert_eq!(wallet_position(1, 0), None);
    assert_eq!(wallet_position(usize::MAX, usize::MAX), Some(usize::MAX - 1));
}

#[test]
fn transfer_pays_the_recipient_address() {
    let sender = Wallet::from_secret_key(secret(3)).unwrap();
    let recipient = Wallet::from_secret_key(secret(4)).unwrap();
    let tx = build_transfer(&sender, &recipient, 150_000_000).unwrap();
    assert_eq!(tx.inputs.len(), 1);
    assert_eq!(tx.inputs[0].txid, [0u8; 32]);
    assert_eq!(tx.inputs[0].vout, 0);
    assert_eq!(Some(tx.inputs[0].script_sig.clone()), sender.sign_transaction(&[0u8; 32]));
    assert_eq!(tx.outputs.len(), 1);
    assert_eq!(tx.outputs[0].value, 150_000_000);
    assert_eq!(tx.outputs[0].script_pubkey, recipient.get_address().as_bytes().to_vec());
}

#[test]
fn key_text_is_hex_colon_decimal() {
    let mut txid = [0u8; 32];
    for (i, b) in txid.iter_mut().enumerate() {
        *b = (i as u8).wrapping_mul(37).wrapping_add(9);
    }
    txid[0] = 0x0f;
    txid[1] = 0xf0;
    for vout in [0u32, 7, 9, 10, 11, 99, 100, 123, 4_000_000_000, u32::MAX] {
        assert_eq!(UTXOSet::generate_key(&txid, vout), format!("{}:{}", hex::encode(txid), vout));
    }
    let key = UTXOSet::generate_key(&[0xabu8; 32], 42);
    assert_eq!(key, format!("{}:42", "ab".repeat(32)));
    assert!(UTXOSet::generate_key(&txid, 1).starts_with("0ff0"));
}
