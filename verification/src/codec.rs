//! Encoding transactions and blocks to bytes, and decoding them again.

use crate::errors::LedgerError;
use crate::format::{
    block_decoding, block_encoding, bytes_encoding, encode_each, header_encoding, input_encoder,
    input_encoding, input_parser, lemma_block_decoding_is_canonical, lemma_block_round_trip,
    lemma_parse_each_fails_on, lemma_transaction_decoding_is_canonical,
    lemma_transaction_round_trip, output_encoder, output_encoding, output_parser, parse_block,
    parse_bytes, parse_digest, parse_each, parse_header, parse_i32, parse_i64, parse_input,
    parse_output, parse_transaction, parse_u32, parse_u64, transaction_decoding,
    transaction_encoder, transaction_encoding, transaction_parser, u32_encoding, u64_encoding,
};
use crate::structures::{
    inputs_view, lemma_block_well_formed, lemma_transaction_well_formed, outputs_view,
    transactions_view, Block, BlockHeader, Transaction, TransactionInput, TransactionOutput,
};
use vstd::bytes::*;
use vstd::prelude::*;
use vstd::slice::*;

verus! {

fn put_u32(out: &mut Vec<u8>, x: u32)
    ensures
        final(out)@ == old(out)@ + u32_encoding(x),
{
    let mut le = u32_to_le_bytes(x);
    out.append(&mut le);
}

fn put_u64(out: &mut Vec<u8>, x: u64)
    ensures
        final(out)@ == old(out)@ + u64_encoding(x),
{
    let mut le = u64_to_le_bytes(x);
    out.append(&mut le);
}

fn put_raw(out: &mut Vec<u8>, data: &[u8])
    ensures
        final(out)@ == old(out)@ + data@,
{
    let mut i: usize = 0;
    while i < data.len()
        invariant
            i <= data.len(),
            out@ == old(out)@ + data@.take(i as int),
        decreases data.len() - i,
    {
        out.push(data[i]);
        i += 1;
    }
}

fn put_bytes(out: &mut Vec<u8>, data: &Vec<u8>)
    ensures
        final(out)@ == old(out)@ + bytes_encoding(data@),
{
    put_u64(out, data.len() as u64);
    put_raw(out, data.as_slice());
}

fn put_input(out: &mut Vec<u8>, input: &TransactionInput)
    ensures
        final(out)@ == old(out)@ + input_encoding(input@),
{
    put_raw(out, input.txid.as_slice());
    put_u32(out, input.vout);
    put_bytes(out, &input.script_sig);
}

fn put_output(out: &mut Vec<u8>, output: &TransactionOutput)
    ensures
        final(out)@ == old(out)@ + output_encoding(output@),
{
    put_u64(out, output.value);
    put_bytes(out, &output.script_pubkey);
}

fn put_transaction(out: &mut Vec<u8>, tx: &Transaction)
    ensures
        final(out)@ == old(out)@ + transaction_encoding(tx@),
{
    put_u64(out, tx.inputs.len() as u64);
    let ghost start = out@;
    let mut i: usize = 0;
    while i < tx.inputs.len()
        invariant
            i <= tx.inputs.len(),
            out@ == start + encode_each(tx@.inputs.take(i as int), input_encoder()),
        decreases tx.inputs.len() - i,
    {
        put_input(out, &tx.inputs[i]);
        proof {
            let next = tx@.inputs.take(i + 1);
            assert(next.drop_last() =~= tx@.inputs.take(i as int));
            assert(next.last() == tx.inputs@[i as int]@);
        }
        i += 1;
    }
    assert(tx@.inputs.take(i as int) =~= tx@.inputs);
    put_u64(out, tx.outputs.len() as u64);
    let ghost middle = out@;
    let mut j: usize = 0;
    while j < tx.outputs.len()
        invariant
            j <= tx.outputs.len(),
            out@ == middle + encode_each(tx@.outputs.take(j as int), output_encoder()),
        decreases tx.outputs.len() - j,
    {
        put_output(out, &tx.outputs[j]);
        proof {
            let next = tx@.outputs.take(j + 1);
            assert(next.drop_last() =~= tx@.outputs.take(j as int));
            assert(next.last() == tx.outputs@[j as int]@);
        }
        j += 1;
    }
    assert(tx@.outputs.take(j as int) =~= tx@.outputs);
}

fn put_header(out: &mut Vec<u8>, header: &BlockHeader)
    ensures
        final(out)@ == old(out)@ + header_encoding(header@),
{
    put_u32(out, header.version as u32);
    put_raw(out, header.prev_block_hash.as_slice());
    put_raw(out, header.merkle_root.as_slice());
    put_u64(out, header.timestamp as u64);
    put_u32(out, header.difficulty);
    put_u32(out, header.nonce);
}

fn put_block(out: &mut Vec<u8>, block: &Block)
    ensures
        final(out)@ == old(out)@ + block_encoding(block@),
{
    put_header(out, &block.header);
    put_u64(out, block.transactions.len() as u64);
    let ghost start = out@;
    let mut i: usize = 0;
    while i < block.transactions.len()
        invariant
            i <= block.transactions.len(),
            out@ == start + encode_each(block@.transactions.take(i as int), transaction_encoder()),
        decreases block.transactions.len() - i,
    {
        put_transaction(out, &block.transactions[i]);
        proof {
            let next = block@.transactions.take(i + 1);
            assert(next.drop_last() =~= block@.transactions.take(i as int));
            assert(next.last() == block.transactions@[i as int]@);
        }
        i += 1;
    }
    assert(block@.transactions.take(i as int) =~= block@.transactions);
}


fn read_u32(b: &[u8], pos: usize) -> (r: Option<(u32, usize)>)
    ensures
        match r {
            Some((x, end)) => parse_u32(b@, pos as int) == Some((x, end as int)),
            None => parse_u32(b@, pos as int) is None,
        },
{
    if pos <= b.len() && b.len() - pos >= 4 {
        let x = u32_from_le_bytes(slice_subrange(b, pos, pos + 4));
        Some((x, pos + 4))
    } else {
        None
    }
}

fn read_u64(b: &[u8], pos: usize) -> (r: Option<(u64, usize)>)
    ensures
        match r {
            Some((x, end)) => parse_u64(b@, pos as int) == Some((x, end as int)),
            None => parse_u64(b@, pos as int) is None,
        },
{
    if pos <= b.len() && b.len() - pos >= 8 {
        let x = u64_from_le_bytes(slice_subrange(b, pos, pos + 8));
        Some((x, pos + 8))
    } else {
        None
    }
}

fn read_i32(b: &[u8], pos: usize) -> (r: Option<(i32, usize)>)
    ensures
        match r {
            Some((x, end)) => parse_i32(b@, pos as int) == Some((x, end as int)),
            None => parse_i32(b@, pos as int) is None,
        },
{
    match read_u32(b, pos) {
        Some((x, end)) => Some((x as i32, end)),
        None => None,
    }
}

fn read_i64(b: &[u8], pos: usize) -> (r: Option<(i64, usize)>)
    ensures
        match r {
            Some((x, end)) => parse_i64(b@, pos as int) == Some((x, end as int)),
            None => parse_i64(b@, pos as int) is None,
        },
{
    match read_u64(b, pos) {
        Some((x, end)) => Some((x as i64, end)),
        None => None,
    }
}

fn read_digest(b: &[u8], pos: usize) -> (r: Option<([u8; 32], usize)>)
    ensures
        match r {
            Some((d, end)) => parse_digest(b@, pos as int) == Some((d@, end as int)),
            None => parse_digest(b@, pos as int) is None,
        },
{
    if pos <= b.len() && b.len() - pos >= 32 {
        let mut d = [0u8; 32];
        let mut i: usize = 0;
        while i < 32
            invariant
                i <= 32,
                pos + 32 <= b.len(),
                forall|k: int| 0 <= k < i ==> d@[k] == b@[pos + k],
            decreases 32 - i,
        {
            d[i] = b[pos + i];
            i += 1;
        }
        assert(d@ =~= b@.subrange(pos as int, pos + 32));
        Some((d, pos + 32))
    } else {
        None
    }
}

fn read_bytes(b: &[u8], pos: usize) -> (r: Option<(Vec<u8>, usize)>)
    ensures
        match r {
            Some((data, end)) => parse_bytes(b@, pos as int) == Some((data@, end as int)),
            None => parse_bytes(b@, pos as int) is None,
        },
{
    match read_u64(b, pos) {
        Some((n, start)) => {
            if n <= (b.len() - start) as u64 {
                let end = start + n as usize;
                let data = slice_to_vec(slice_subrange(b, start, end));
                Some((data, end))
            } else {
                None
            }
        },
        None => None,
    }
}

fn read_input(b: &[u8], pos: usize) -> (r: Option<(TransactionInput, usize)>)
    ensures
        match r {
            Some((input, end)) => parse_input(b@, pos as int) == Some((input@, end as int)),
            None => parse_input(b@, pos as int) is None,
        },
{
    let (txid, at1) = match read_digest(b, pos) {
        Some(found) => found,
        None => { return None; },
    };
    let (vout, at2) = match read_u32(b, at1) {
        Some(found) => found,
        None => { return None; },
    };
    let (script_sig, at3) = match read_bytes(b, at2) {
        Some(found) => found,
        None => { return None; },
    };
    Some((TransactionInput { txid, vout, script_sig }, at3))
}

fn read_output(b: &[u8], pos: usize) -> (r: Option<(TransactionOutput, usize)>)
    ensures
        match r {
            Some((output, end)) => parse_output(b@, pos as int) == Some((output@, end as int)),
            None => parse_output(b@, pos as int) is None,
        },
{
    let (value, at1) = match read_u64(b, pos) {
        Some(found) => found,
        None => { return None; },
    };
    let (script_pubkey, at2) = match read_bytes(b, at1) {
        Some(found) => found,
        None => { return None; },
    };
    Some((TransactionOutput { value, script_pubkey }, at2))
}

fn read_inputs(b: &[u8], pos: usize, n: u64) -> (r: Option<(Vec<TransactionInput>, usize)>)
    ensures
        match r {
            Some((items, end)) => parse_each(b@, pos as int, n as nat, input_parser()) == Some(
                (inputs_view(items@), end as int),
            ),
            None => parse_each(b@, pos as int, n as nat, input_parser()) is None,
        },
{
    let mut items: Vec<TransactionInput> = Vec::new();
    let mut at: usize = pos;
    let mut i: u64 = 0;
    assert(inputs_view(items@) =~= Seq::empty());
    while i < n
        invariant
            i <= n,
            parse_each(b@, pos as int, i as nat, input_parser()) == Some(
                (inputs_view(items@), at as int),
            ),
        decreases n - i,
    {
        match read_input(b, at) {
            Some((item, end)) => {
                let ghost before = inputs_view(items@);
                items.push(item);
                assert(inputs_view(items@) =~= before.push(item@));
                at = end;
                i += 1;
            },
            None => {
                proof {
                    lemma_parse_each_fails_on(
                        b@,
                        pos as int,
                        (i + 1) as nat,
                        n as nat,
                        input_parser(),
                    );
                }
                return None;
            },
        }
    }
    Some((items, at))
}

fn read_outputs(b: &[u8], pos: usize, n: u64) -> (r: Option<(Vec<TransactionOutput>, usize)>)
    ensures
        match r {
            Some((items, end)) => parse_each(b@, pos as int, n as nat, output_parser()) == Some(
                (outputs_view(items@), end as int),
            ),
            None => parse_each(b@, pos as int, n as nat, output_parser()) is None,
        },
{
    let mut items: Vec<TransactionOutput> = Vec::new();
    let mut at: usize = pos;
    let mut i: u64 = 0;
    assert(outputs_view(items@) =~= Seq::empty());
    while i < n
        invariant
            i <= n,
            parse_each(b@, pos as int, i as nat, output_parser()) == Some(
                (outputs_view(items@), at as int),
            ),
        decreases n - i,
    {
        match read_output(b, at) {
            Some((item, end)) => {
                let ghost before = outputs_view(items@);
                items.push(item);
                assert(outputs_view(items@) =~= before.push(item@));
                at = end;
                i += 1;
            },
            None => {
                proof {
                    lemma_parse_each_fails_on(
                        b@,
                        pos as int,
                        (i + 1) as nat,
                        n as nat,
                        output_parser(),
                    );
                }
                return None;
            },
        }
    }
    Some((items, at))
}

fn read_transaction(b: &[u8], pos: usize) -> (r: Option<(Transaction, usize)>)
    ensures
        match r {
            Some((tx, end)) => parse_transaction(b@, pos as int) == Some((tx@, end as int)),
            None => parse_transaction(b@, pos as int) is None,
        },
{
    let (n_in, at1) = match read_u64(b, pos) {
        Some(found) => found,
        None => { return None; },
    };
    let (inputs, at2) = match read_inputs(b, at1, n_in) {
        Some(found) => found,
        None => { return None; },
    };
    let (n_out, at3) = match read_u64(b, at2) {
        Some(found) => found,
        None => { return None; },
    };
    let (outputs, at4) = match read_outputs(b, at3, n_out) {
        Some(found) => found,
        None => { return None; },
    };
    Some((Transaction { inputs, outputs }, at4))
}

fn read_transactions(b: &[u8], pos: usize, n: u64) -> (r: Option<(Vec<Transaction>, usize)>)
    ensures
        match r {
            Some((items, end)) => parse_each(b@, pos as int, n as nat, transaction_parser())
                == Some((transactions_view(items@), end as int)),
            None => parse_each(b@, pos as int, n as nat, transaction_parser()) is None,
        },
{
    let mut items: Vec<Transaction> = Vec::new();
    let mut at: usize = pos;
    let mut i: u64 = 0;
    assert(transactions_view(items@) =~= Seq::empty());
    while i < n
        invariant
            i <= n,
            parse_each(b@, pos as int, i as nat, transaction_parser()) == Some(
                (transactions_view(items@), at as int),
            ),
        decreases n - i,
    {
        match read_transaction(b, at) {
            Some((item, end)) => {
                let ghost before = transactions_view(items@);
                items.push(item);
                assert(transactions_view(items@) =~= before.push(item@));
                at = end;
                i += 1;
            },
            None => {
                proof {
                    lemma_parse_each_fails_on(
                        b@,
                        pos as int,
                        (i + 1) as nat,
                        n as nat,
                        transaction_parser(),
                    );
                }
                return None;
            },
        }
    }
    Some((items, at))
}

fn read_header(b: &[u8], pos: usize) -> (r: Option<(BlockHeader, usize)>)
    ensures
        match r {
            Some((header, end)) => parse_header(b@, pos as int) == Some((header@, end as int)),
            None => parse_header(b@, pos as int) is None,
        },
{
    let (version, at1) = match read_i32(b, pos) {
        Some(found) => found,
        None => { return None; },
    };
    let (prev_block_hash, at2) = match read_digest(b, at1) {
        Some(found) => found,
        None => { return None; },
    };
    let (merkle_root, at3) = match read_digest(b, at2) {
        Some(found) => found,
        None => { return None; },
    };
    let (timestamp, at4) = match read_i64(b, at3) {
        Some(found) => found,
        None => { return None; },
    };
    let (difficulty, at5) = match read_u32(b, at4) {
        Some(found) => found,
        None => { return None; },
    };
    let (nonce, at6) = match read_u32(b, at5) {
        Some(found) => found,
        None => { return None; },
    };
    Some(
        (BlockHeader { version, prev_block_hash, merkle_root, timestamp, difficulty, nonce }, at6),
    )
}

fn read_block(b: &[u8], pos: usize) -> (r: Option<(Block, usize)>)
    ensures
        match r {
            Some((block, end)) => parse_block(b@, pos as int) == Some((block@, end as int)),
            None => parse_block(b@, pos as int) is None,
        },
{
    let (header, at1) = match read_header(b, pos) {
        Some(found) => found,
        None => { return None; },
    };
    let (n, at2) = match read_u64(b, at1) {
        Some(found) => found,
        None => { return None; },
    };
    let (transactions, at3) = match read_transactions(b, at2, n) {
        Some(found) => found,
        None => { return None; },
    };
    Some((Block { header, transactions }, at3))
}

impl Transaction {
    /// The canonical encoding of this transaction.
    pub fn serialize(&self) -> (bytes: Vec<u8>)
        ensures
            bytes@ == transaction_encoding(self@),
            transaction_decoding(bytes@) == Some(self@),
    {
        let mut out: Vec<u8> = Vec::new();
        put_transaction(&mut out, self);
        proof {
            lemma_transaction_serialize_round_trip(*self);
        }
        out
    }

    /// The transaction that `bytes` encode. They must encode one and hold
    /// nothing after it.
    pub fn deserialize(bytes: &[u8]) -> (r: Result<Transaction, LedgerError>)
        ensures
            match r {
                Ok(tx) => transaction_decoding(bytes@) == Some(tx@) && transaction_encoding(tx@)
                    == bytes@,
                Err(e) => e == LedgerError::MalformedEncoding && transaction_decoding(bytes@)
                    is None,
            },
    {
        proof {
            lemma_transaction_decoding_is_canonical(bytes@);
        }
        match read_transaction(bytes, 0) {
            Some((tx, end)) => {
                if end == bytes.len() {
                    Ok(tx)
                } else {
                    Err(LedgerError::MalformedEncoding)
                }
            },
            None => Err(LedgerError::MalformedEncoding),
        }
    }
}

impl Block {
    /// The canonical encoding of this block.
    pub fn serialize(&self) -> (bytes: Vec<u8>)
        ensures
            bytes@ == block_encoding(self@),
            block_decoding(bytes@) == Some(self@),
    {
        let mut out: Vec<u8> = Vec::new();
        put_block(&mut out, self);
        proof {
            lemma_block_serialize_round_trip(*self);
        }
        out
    }

    /// The block that `bytes` encode. They must encode one and hold nothing
    /// after it.
    pub fn deserialize(bytes: &[u8]) -> (r: Result<Block, LedgerError>)
        ensures
            match r {
                Ok(block) => block_decoding(bytes@) == Some(block@) && block_encoding(block@)
                    == bytes@,
                Err(e) => e == LedgerError::MalformedEncoding && block_decoding(bytes@) is None,
            },
    {
        proof {
            lemma_block_decoding_is_canonical(bytes@);
        }
        match read_block(bytes, 0) {
            Some((block, end)) => {
                if end == bytes.len() {
                    Ok(block)
                } else {
                    Err(LedgerError::MalformedEncoding)
                }
            },
            None => Err(LedgerError::MalformedEncoding),
        }
    }
}

/// Decoding what `serialize` gives returns the transaction.
pub proof fn lemma_transaction_serialize_round_trip(tx: Transaction)
    ensures
        transaction_decoding(transaction_encoding(tx@)) == Some(tx@),
{
    lemma_transaction_well_formed(tx);
    lemma_transaction_round_trip(tx@);
}

/// Decoding what `serialize` gives returns the block.
pub proof fn lemma_block_serialize_round_trip(block: Block)
    ensures
        block_decoding(block_encoding(block@)) == Some(block@),
{
    lemma_block_well_formed(block);
    lemma_block_round_trip(block@);
}

} // verus!
