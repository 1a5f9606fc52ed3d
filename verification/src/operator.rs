//! What an operator's commands mean: the choices of the menu, the wallet a
//! number stands for, and the transaction that a transfer submits.

use crate::structures::{Transaction, TransactionInput, TransactionOutput, TransactionView};
use crate::structures::{TransactionInputView, TransactionOutputView};
use crate::wallet::{address_of, secp256k1_signature, Wallet};
use vstd::prelude::*;
use vstd::slice::slice_to_vec;
use vstd::string::StringSliceAdditionalSpecFns;
use vstd::utf8::encode_utf8;

verus! {

/// The commands of the menu.
#[derive(Debug, Clone, Copy, PartialEq, Eq, Structural)]
pub enum MenuChoice {
    CreateWallet,
    ListWallets,
    SendTransaction,
    MineBlock,
    PrintBlockchainInfo,
    PrintWalletBalance,
    Exit,
    Invalid,
}

/// The command that the bytes of a line stand for: the digits 1 to 7 are the
/// commands in their order, everything else is invalid.
pub open spec fn choice_of(line: Seq<u8>) -> MenuChoice {
    if line.len() != 1 {
        MenuChoice::Invalid
    } else if line[0] == 0x31 {
        MenuChoice::CreateWallet
    } else if line[0] == 0x32 {
        MenuChoice::ListWallets
    } else if line[0] == 0x33 {
        MenuChoice::SendTransaction
    } else if line[0] == 0x34 {
        MenuChoice::MineBlock
    } else if line[0] == 0x35 {
        MenuChoice::PrintBlockchainInfo
    } else if line[0] == 0x36 {
        MenuChoice::PrintWalletBalance
    } else if line[0] == 0x37 {
        MenuChoice::Exit
    } else {
        MenuChoice::Invalid
    }
}

/// The command that `line` stands for.
pub fn parse_choice(line: &str) -> (choice: MenuChoice)
    ensures
        choice == choice_of(line.spec_bytes()),
{
    let bytes = line.as_bytes();
    if bytes.len() != 1 {
        return MenuChoice::Invalid;
    }
    let digit = bytes[0];
    if digit == 0x31 {
        MenuChoice::CreateWallet
    } else if digit == 0x32 {
        MenuChoice::ListWallets
    } else if digit == 0x33 {
        MenuChoice::SendTransaction
    } else if digit == 0x34 {
        MenuChoice::MineBlock
    } else if digit == 0x35 {
        MenuChoice::PrintBlockchainInfo
    } else if digit == 0x36 {
        MenuChoice::PrintWalletBalance
    } else if digit == 0x37 {
        MenuChoice::Exit
    } else {
        MenuChoice::Invalid
    }
}

/// The position of the wallet that the operator names by `number`, counted
/// from one, among `count` wallets; `None` where there is no such wallet.
pub fn wallet_position(number: usize, count: usize) -> (position: Option<usize>)
    ensures
        match position {
            Some(at) => 1 <= number <= count && at == number - 1,
            None => number < 1 || number > count,
        },
{
    if 1 <= number && number <= count {
        Some(number - 1)
    } else {
        None
    }
}

/// The digest that a transfer signs, and the digest of the transaction that
/// it names as spent: 32 zero bytes, for want of a real one.
pub open spec fn placeholder_digest() -> Seq<u8> {
    Seq::new(32, |i: int| 0u8)
}

/// The transaction that a transfer of `amount` to the address `recipient`
/// submits, with `signature` as the proof of its one input.
pub open spec fn transfer_of(signature: Seq<u8>, recipient: Seq<char>, amount: u64) -> TransactionView {
    TransactionView {
        inputs: seq![
            TransactionInputView { txid: placeholder_digest(), vout: 0, script_sig: signature },
        ],
        outputs: seq![
            TransactionOutputView { value: amount, script_pubkey: encode_utf8(recipient) },
        ],
    }
}

/// The transaction that sends `amount` to `recipient`, signed by `sender`;
/// `None` where `sender` cannot sign.
pub fn build_transfer(sender: &Wallet, recipient: &Wallet, amount: u64) -> (r: Option<Transaction>)
    ensures
        match r {
            Some(tx) => secp256k1_signature(sender.secret(), placeholder_digest()) is Some && tx@
                == transfer_of(
                secp256k1_signature(sender.secret(), placeholder_digest())->0,
                address_of(recipient.public()),
                amount,
            ),
            None => secp256k1_signature(sender.secret(), placeholder_digest()) is None,
        },
{
    let zero = [0u8; 32];
    assert(zero@ =~= placeholder_digest());
    let script_sig = match sender.sign_transaction(&zero) {
        Some(signature) => signature,
        None => { return None; },
    };
    let address = recipient.get_address();
    let script_pubkey = slice_to_vec(address.as_str().as_bytes());
    let mut inputs: Vec<TransactionInput> = Vec::new();
    inputs.push(TransactionInput { txid: zero, vout: 0, script_sig });
    let mut outputs: Vec<TransactionOutput> = Vec::new();
    outputs.push(TransactionOutput { value: amount, script_pubkey });
    let tx = Transaction { inputs, outputs };
    proof {
        let expected = transfer_of(
            secp256k1_signature(sender.secret(), placeholder_digest())->0,
            address_of(recipient.public()),
            amount,
        );
        assert(tx@.inputs =~= expected.inputs);
        assert(tx@.outputs =~= expected.outputs);
    }
    Some(tx)
}

} // verus!
