//! The canonical byte format of transactions and blocks, as mathematics.
//!
//! Integers are little-endian and of fixed width, a digest is its 32 bytes,
//! and a sequence is its length as a 64-bit integer followed by its items.
//! Each part has an encoding, a parser that works from a position in a
//! buffer, and two lemmas: the parser reads back what the encoding wrote, and
//! reads nothing else.

use crate::structures::{
    BlockHeaderView, BlockView, TransactionInputView, TransactionOutputView, TransactionView,
    DIGEST_LEN,
};
use vstd::bytes::*;
use vstd::prelude::*;

verus! {

/// The bytes of `b` from `pos` on start with `part`.
pub open spec fn holds_at(b: Seq<u8>, pos: int, part: Seq<u8>) -> bool {
    &&& 0 <= pos
    &&& pos + part.len() <= b.len()
    &&& b.subrange(pos, pos + part.len()) =~= part
}

/// A parser: from bytes and a position to a value and the position after it.
pub type Parser<T> = spec_fn(Seq<u8>, int) -> Option<(T, int)>;

/// An encoder: from a value to its bytes.
pub type Encoder<T> = spec_fn(T) -> Seq<u8>;

/// The encodings of `items`, one after the other.
pub open spec fn encode_each<T>(items: Seq<T>, enc: Encoder<T>) -> Seq<u8>
    decreases items.len(),
{
    if items.len() == 0 {
        Seq::empty()
    } else {
        encode_each(items.drop_last(), enc) + enc(items.last())
    }
}

/// Reads `n` items, one after the other, starting at `pos`.
pub open spec fn parse_each<T>(b: Seq<u8>, pos: int, n: nat, parse: Parser<T>) -> Option<
    (Seq<T>, int),
>
    decreases n,
{
    if n == 0 {
        Some((Seq::empty(), pos))
    } else {
        match parse_each(b, pos, (n - 1) as nat, parse) {
            Some((items, p)) => match parse(b, p) {
                Some((item, q)) => Some((items.push(item), q)),
                None => None,
            },
            None => None,
        }
    }
}

/// `parse` reads back whatever `enc` wrote of a value that `ok` admits.
pub open spec fn reads_back<T>(parse: Parser<T>, enc: Encoder<T>, ok: spec_fn(T) -> bool) -> bool {
    forall|b: Seq<u8>, pos: int, x: T|
        ok(x) && holds_at(b, pos, #[trigger] enc(x)) ==> #[trigger] parse(b, pos) == Some(
            (x, pos + enc(x).len()),
        )
}

/// Whatever `parse` reads is admitted by `ok` and was written by `enc`.
pub open spec fn reads_only<T>(parse: Parser<T>, enc: Encoder<T>, ok: spec_fn(T) -> bool) -> bool {
    forall|b: Seq<u8>, pos: int|
        0 <= pos ==> match #[trigger] parse(b, pos) {
            Some((x, end)) => ok(x) && end == pos + enc(x).len() && holds_at(b, pos, enc(x)),
            None => true,
        }
}

/// Splitting what stands at a position into a first and a second part.
pub proof fn lemma_holds_at_split(b: Seq<u8>, pos: int, first: Seq<u8>, second: Seq<u8>)
    ensures
        holds_at(b, pos, first + second) <==> holds_at(b, pos, first) && holds_at(
            b,
            pos + first.len(),
            second,
        ),
{
    let whole = first + second;
    if holds_at(b, pos, whole) {
        assert(b.subrange(pos, pos + first.len()) =~= first) by {
            assert forall|i: int| 0 <= i < first.len() implies b[pos + i] == first[i] by {
                assert(b.subrange(pos, pos + whole.len())[i] == whole[i]);
            }
        }
        assert(b.subrange(pos + first.len(), pos + first.len() + second.len()) =~= second) by {
            assert forall|i: int| 0 <= i < second.len() implies b[pos + first.len() + i]
                == second[i] by {
                assert(b.subrange(pos, pos + whole.len())[first.len() + i] == whole[first.len()
                    + i]);
            }
        }
    }
    if holds_at(b, pos, first) && holds_at(b, pos + first.len(), second) {
        assert(b.subrange(pos, pos + whole.len()) =~= whole) by {
            assert forall|i: int| 0 <= i < whole.len() implies b[pos + i] == whole[i] by {
                if i < first.len() {
                    assert(b.subrange(pos, pos + first.len())[i] == first[i]);
                } else {
                    assert(b.subrange(pos + first.len(), pos + first.len() + second.len())[i
                        - first.len()] == second[i - first.len()]);
                }
            }
        }
    }
}

/// A list that was written item by item is read back item by item.
pub proof fn lemma_parse_each_reads_back<T>(
    b: Seq<u8>,
    pos: int,
    items: Seq<T>,
    parse: Parser<T>,
    enc: Encoder<T>,
    ok: spec_fn(T) -> bool,
)
    requires
        reads_back(parse, enc, ok),
        forall|i: int| 0 <= i < items.len() ==> ok(#[trigger] items[i]),
        holds_at(b, pos, encode_each(items, enc)),
    ensures
        parse_each(b, pos, items.len(), parse) == Some(
            (items, pos + encode_each(items, enc).len()),
        ),
    decreases items.len(),
{
    if items.len() > 0 {
        let front = items.drop_last();
        lemma_holds_at_split(b, pos, encode_each(front, enc), enc(items.last()));
        lemma_parse_each_reads_back(b, pos, front, parse, enc, ok);
        assert(ok(items[items.len() - 1]));
        assert(front.push(items.last()) =~= items);
    }
}

/// A list that was read item by item is what was written item by item.
pub proof fn lemma_parse_each_reads_only<T>(
    b: Seq<u8>,
    pos: int,
    n: nat,
    parse: Parser<T>,
    enc: Encoder<T>,
    ok: spec_fn(T) -> bool,
)
    requires
        reads_only(parse, enc, ok),
        0 <= pos <= b.len(),
    ensures
        match parse_each(b, pos, n, parse) {
            Some((items, end)) => {
                &&& items.len() == n
                &&& forall|i: int| 0 <= i < items.len() ==> ok(#[trigger] items[i])
                &&& end == pos + encode_each(items, enc).len()
                &&& holds_at(b, pos, encode_each(items, enc))
            },
            None => true,
        },
    decreases n,
{
    if n > 0 {
        lemma_parse_each_reads_only(b, pos, (n - 1) as nat, parse, enc, ok);
        match parse_each(b, pos, (n - 1) as nat, parse) {
            Some((front, p)) => {
                match parse(b, p) {
                    Some((item, q)) => {
                        let items = front.push(item);
                        assert(items.drop_last() =~= front);
                        assert(items.last() == item);
                        lemma_holds_at_split(b, pos, encode_each(front, enc), enc(item));
                        assert forall|i: int| 0 <= i < items.len() implies ok(
                            #[trigger] items[i],
                        ) by {
                            if i < front.len() {
                                assert(items[i] == front[i]);
                            }
                        }
                    },
                    None => {},
                }
            },
            None => {},
        }
    }
}

/// Once reading a shorter list has failed, reading a longer one fails too.
pub proof fn lemma_parse_each_fails_on<T>(b: Seq<u8>, pos: int, k: nat, n: nat, parse: Parser<T>)
    requires
        k <= n,
        parse_each(b, pos, k, parse) is None,
    ensures
        parse_each(b, pos, n, parse) is None,
    decreases n,
{
    if k < n {
        lemma_parse_each_fails_on(b, pos, k, (n - 1) as nat, parse);
    }
}

// ---------------------------------------------------------------------------
// Integers

/// Four bytes, least significant first.
pub open spec fn u32_encoding(x: u32) -> Seq<u8> {
    spec_u32_to_le_bytes(x)
}

/// Eight bytes, least significant first.
pub open spec fn u64_encoding(x: u64) -> Seq<u8> {
    spec_u64_to_le_bytes(x)
}

/// Four bytes of two's complement, least significant first.
pub open spec fn i32_encoding(x: i32) -> Seq<u8> {
    spec_u32_to_le_bytes(x as u32)
}

/// Eight bytes of two's complement, least significant first.
pub open spec fn i64_encoding(x: i64) -> Seq<u8> {
    spec_u64_to_le_bytes(x as u64)
}

/// Reads a 32-bit unsigned integer at `pos`: the value and the position after it.
pub open spec fn parse_u32(b: Seq<u8>, pos: int) -> Option<(u32, int)> {
    if 0 <= pos && pos + 4 <= b.len() {
        Some((spec_u32_from_le_bytes(b.subrange(pos, pos + 4)), pos + 4))
    } else {
        None
    }
}

/// Reads a 64-bit unsigned integer at `pos`: the value and the position after it.
pub open spec fn parse_u64(b: Seq<u8>, pos: int) -> Option<(u64, int)> {
    if 0 <= pos && pos + 8 <= b.len() {
        Some((spec_u64_from_le_bytes(b.subrange(pos, pos + 8)), pos + 8))
    } else {
        None
    }
}

/// Reads a 32-bit signed integer at `pos`: the value and the position after it.
pub open spec fn parse_i32(b: Seq<u8>, pos: int) -> Option<(i32, int)> {
    match parse_u32(b, pos) {
        Some((x, end)) => Some((x as i32, end)),
        None => None,
    }
}

/// Reads a 64-bit signed integer at `pos`: the value and the position after it.
pub open spec fn parse_i64(b: Seq<u8>, pos: int) -> Option<(i64, int)> {
    match parse_u64(b, pos) {
        Some((x, end)) => Some((x as i64, end)),
        None => None,
    }
}

/// Where the encoding of a 32-bit unsigned integer stands at `pos`, the parser reads it back.
pub proof fn lemma_u32_reads_back(b: Seq<u8>, pos: int, x: u32)
    requires
        holds_at(b, pos, u32_encoding(x)),
    ensures
        u32_encoding(x).len() == 4,
        parse_u32(b, pos) == Some((x, pos + 4)),
{
    lemma_auto_spec_u32_to_from_le_bytes();
}

/// Whatever the parser reads as a 32-bit unsigned integer at `pos` is what its encoding
/// wrote there.
pub proof fn lemma_u32_reads_only(b: Seq<u8>, pos: int)
    ensures
        match parse_u32(b, pos) {
            Some((x, end)) => end == pos + 4 && u32_encoding(x).len() == 4 && holds_at(
                b,
                pos,
                u32_encoding(x),
            ),
            None => true,
        },
{
    lemma_auto_spec_u32_to_from_le_bytes();
    if 0 <= pos && pos + 4 <= b.len() {
        let part = b.subrange(pos, pos + 4);
        assert(spec_u32_to_le_bytes(spec_u32_from_le_bytes(part)) == part);
    }
}

/// Where the encoding of a 64-bit unsigned integer stands at `pos`, the parser reads it back.
pub proof fn lemma_u64_reads_back(b: Seq<u8>, pos: int, x: u64)
    requires
        holds_at(b, pos, u64_encoding(x)),
    ensures
        u64_encoding(x).len() == 8,
        parse_u64(b, pos) == Some((x, pos + 8)),
{
    lemma_auto_spec_u64_to_from_le_bytes();
}

/// Whatever the parser reads as a 64-bit unsigned integer at `pos` is what its encoding
/// wrote there.
pub proof fn lemma_u64_reads_only(b: Seq<u8>, pos: int)
    ensures
        match parse_u64(b, pos) {
            Some((x, end)) => end == pos + 8 && u64_encoding(x).len() == 8 && holds_at(
                b,
                pos,
                u64_encoding(x),
            ),
            None => true,
        },
{
    lemma_auto_spec_u64_to_from_le_bytes();
    if 0 <= pos && pos + 8 <= b.len() {
        let part = b.subrange(pos, pos + 8);
        assert(spec_u64_to_le_bytes(spec_u64_from_le_bytes(part)) == part);
    }
}

/// Where the encoding of a 32-bit signed integer stands at `pos`, the parser reads it back.
pub proof fn lemma_i32_reads_back(b: Seq<u8>, pos: int, x: i32)
    requires
        holds_at(b, pos, i32_encoding(x)),
    ensures
        i32_encoding(x).len() == 4,
        parse_i32(b, pos) == Some((x, pos + 4)),
{
    lemma_u32_reads_back(b, pos, x as u32);
    assert((x as u32) as i32 == x) by (bit_vector);
}

/// Whatever the parser reads as a 32-bit signed integer at `pos` is what its encoding
/// wrote there.
pub proof fn lemma_i32_reads_only(b: Seq<u8>, pos: int)
    ensures
        match parse_i32(b, pos) {
            Some((x, end)) => end == pos + 4 && i32_encoding(x).len() == 4 && holds_at(
                b,
                pos,
                i32_encoding(x),
            ),
            None => true,
        },
{
    lemma_u32_reads_only(b, pos);
    if let Some((u, end)) = parse_u32(b, pos) {
        assert((u as i32) as u32 == u) by (bit_vector);
    }
}

/// Where the encoding of a 64-bit signed integer stands at `pos`, the parser reads it back.
pub proof fn lemma_i64_reads_back(b: Seq<u8>, pos: int, x: i64)
    requires
        holds_at(b, pos, i64_encoding(x)),
    ensures
        i64_encoding(x).len() == 8,
        parse_i64(b, pos) == Some((x, pos + 8)),
{
    lemma_u64_reads_back(b, pos, x as u64);
    assert((x as u64) as i64 == x) by (bit_vector);
}

/// Whatever the parser reads as a 64-bit signed integer at `pos` is what its encoding
/// wrote there.
pub proof fn lemma_i64_reads_only(b: Seq<u8>, pos: int)
    ensures
        match parse_i64(b, pos) {
            Some((x, end)) => end == pos + 8 && i64_encoding(x).len() == 8 && holds_at(
                b,
                pos,
                i64_encoding(x),
            ),
            None => true,
        },
{
    lemma_u64_reads_only(b, pos);
    if let Some((u, end)) = parse_u64(b, pos) {
        assert((u as i64) as u64 == u) by (bit_vector);
    }
}

// ---------------------------------------------------------------------------
// Digests and byte strings

/// Reads the `DIGEST_LEN` bytes at `pos`.
pub open spec fn parse_digest(b: Seq<u8>, pos: int) -> Option<(Seq<u8>, int)> {
    if 0 <= pos && pos + DIGEST_LEN <= b.len() {
        Some((b.subrange(pos, pos + DIGEST_LEN), pos + DIGEST_LEN))
    } else {
        None
    }
}

/// The length of `data`, then `data`.
pub open spec fn bytes_encoding(data: Seq<u8>) -> Seq<u8> {
    u64_encoding(data.len() as u64) + data
}

/// Reads a byte string at `pos`: the value and the position after it.
pub open spec fn parse_bytes(b: Seq<u8>, pos: int) -> Option<(Seq<u8>, int)> {
    match parse_u64(b, pos) {
        Some((n, start)) => if start + n <= b.len() {
            Some((b.subrange(start, start + n), start + n))
        } else {
            None
        },
        None => None,
    }
}

/// Where the encoding of a byte string stands at `pos`, the parser reads it back.
pub proof fn lemma_bytes_reads_back(b: Seq<u8>, pos: int, data: Seq<u8>)
    requires
        data.len() <= u64::MAX,
        holds_at(b, pos, bytes_encoding(data)),
    ensures
        bytes_encoding(data).len() == 8 + data.len(),
        parse_bytes(b, pos) == Some((data, pos + 8 + data.len())),
{
    lemma_auto_spec_u64_to_from_le_bytes();
    lemma_holds_at_split(b, pos, u64_encoding(data.len() as u64), data);
    lemma_u64_reads_back(b, pos, data.len() as u64);
}

/// Whatever the parser reads as a byte string at `pos` is what its encoding
/// wrote there.
pub proof fn lemma_bytes_reads_only(b: Seq<u8>, pos: int)
    ensures
        match parse_bytes(b, pos) {
            Some((data, end)) => {
                &&& data.len() <= u64::MAX
                &&& end == pos + 8 + data.len()
                &&& bytes_encoding(data).len() == 8 + data.len()
                &&& holds_at(b, pos, bytes_encoding(data))
            },
            None => true,
        },
{
    lemma_u64_reads_only(b, pos);
    if let Some((data, end)) = parse_bytes(b, pos) {
        lemma_holds_at_split(b, pos, u64_encoding(data.len() as u64), data);
    }
}

// ---------------------------------------------------------------------------
// Inputs and outputs

/// The digest of the transaction spent from, the index of the output in it,
/// and the unlocking proof.
pub open spec fn input_encoding(input: TransactionInputView) -> Seq<u8> {
    input.txid + u32_encoding(input.vout) + bytes_encoding(input.script_sig)
}

/// Reads an input at `pos`: the value and the position after it.
pub open spec fn parse_input(b: Seq<u8>, pos: int) -> Option<(TransactionInputView, int)> {
    match parse_digest(b, pos) {
        Some((txid, at1)) => match parse_u32(b, at1) {
            Some((vout, at2)) => match parse_bytes(b, at2) {
                Some((script_sig, at3)) => Some(
                    (TransactionInputView { txid, vout, script_sig }, at3),
                ),
                None => None,
            },
            None => None,
        },
        None => None,
    }
}

/// Where the encoding of an input stands at `pos`, the parser reads it back.
pub proof fn lemma_input_reads_back(b: Seq<u8>, pos: int, input: TransactionInputView)
    requires
        input.well_formed(),
        holds_at(b, pos, input_encoding(input)),
    ensures
        parse_input(b, pos) == Some((input, pos + input_encoding(input).len())),
{
    let head = input.txid + u32_encoding(input.vout);
    lemma_holds_at_split(b, pos, head, bytes_encoding(input.script_sig));
    lemma_holds_at_split(b, pos, input.txid, u32_encoding(input.vout));
    lemma_u32_reads_back(b, pos + DIGEST_LEN, input.vout);
    lemma_bytes_reads_back(b, pos + DIGEST_LEN + 4, input.script_sig);
}

/// Whatever the parser reads as an input at `pos` is what its encoding
/// wrote there.
pub proof fn lemma_input_reads_only(b: Seq<u8>, pos: int)
    ensures
        match parse_input(b, pos) {
            Some((input, end)) => {
                &&& input.well_formed()
                &&& end == pos + input_encoding(input).len()
                &&& holds_at(b, pos, input_encoding(input))
            },
            None => true,
        },
{
    if let Some((input, end)) = parse_input(b, pos) {
        lemma_u32_reads_only(b, pos + DIGEST_LEN);
        lemma_bytes_reads_only(b, pos + DIGEST_LEN + 4);
        let head = input.txid + u32_encoding(input.vout);
        lemma_holds_at_split(b, pos, input.txid, u32_encoding(input.vout));
        lemma_holds_at_split(b, pos, head, bytes_encoding(input.script_sig));
    }
}

/// The amount and the locking condition.
pub open spec fn output_encoding(output: TransactionOutputView) -> Seq<u8> {
    u64_encoding(output.value) + bytes_encoding(output.script_pubkey)
}

/// Reads an output at `pos`: the value and the position after it.
pub open spec fn parse_output(b: Seq<u8>, pos: int) -> Option<(TransactionOutputView, int)> {
    match parse_u64(b, pos) {
        Some((value, at1)) => match parse_bytes(b, at1) {
            Some((script_pubkey, at2)) => Some((TransactionOutputView { value, script_pubkey }, at2)),
            None => None,
        },
        None => None,
    }
}

/// Where the encoding of an output stands at `pos`, the parser reads it back.
pub proof fn lemma_output_reads_back(b: Seq<u8>, pos: int, output: TransactionOutputView)
    requires
        output.well_formed(),
        holds_at(b, pos, output_encoding(output)),
    ensures
        parse_output(b, pos) == Some((output, pos + output_encoding(output).len())),
{
    lemma_holds_at_split(b, pos, u64_encoding(output.value), bytes_encoding(output.script_pubkey));
    lemma_u64_reads_back(b, pos, output.value);
    lemma_bytes_reads_back(b, pos + 8, output.script_pubkey);
}

/// Whatever the parser reads as an output at `pos` is what its encoding
/// wrote there.
pub proof fn lemma_output_reads_only(b: Seq<u8>, pos: int)
    ensures
        match parse_output(b, pos) {
            Some((output, end)) => {
                &&& output.well_formed()
                &&& end == pos + output_encoding(output).len()
                &&& holds_at(b, pos, output_encoding(output))
            },
            None => true,
        },
{
    if let Some((output, end)) = parse_output(b, pos) {
        lemma_u64_reads_only(b, pos);
        lemma_bytes_reads_only(b, pos + 8);
        lemma_holds_at_split(
            b,
            pos,
            u64_encoding(output.value),
            bytes_encoding(output.script_pubkey),
        );
    }
}

/// `parse_input` as a value, to read lists with.
pub open spec fn input_parser() -> Parser<TransactionInputView> {
    |b: Seq<u8>, pos: int| parse_input(b, pos)
}

/// `input_encoding` as a value, to write lists with.
pub open spec fn input_encoder() -> Encoder<TransactionInputView> {
    |input: TransactionInputView| input_encoding(input)
}

/// `well_formed` of an input as a value.
pub open spec fn input_ok() -> spec_fn(TransactionInputView) -> bool {
    |input: TransactionInputView| input.well_formed()
}

/// `parse_output` as a value, to read lists with.
pub open spec fn output_parser() -> Parser<TransactionOutputView> {
    |b: Seq<u8>, pos: int| parse_output(b, pos)
}

/// `output_encoding` as a value, to write lists with.
pub open spec fn output_encoder() -> Encoder<TransactionOutputView> {
    |output: TransactionOutputView| output_encoding(output)
}

/// `well_formed` of an output as a value.
pub open spec fn output_ok() -> spec_fn(TransactionOutputView) -> bool {
    |output: TransactionOutputView| output.well_formed()
}

/// The parsers of inputs and of outputs read back what was written, and
/// nothing else.
pub proof fn lemma_item_formats()
    ensures
        reads_back(input_parser(), input_encoder(), input_ok()),
        reads_only(input_parser(), input_encoder(), input_ok()),
        reads_back(output_parser(), output_encoder(), output_ok()),
        reads_only(output_parser(), output_encoder(), output_ok()),
{
    assert forall|b: Seq<u8>, pos: int, x: TransactionInputView|
        input_ok()(x) && holds_at(b, pos, #[trigger] input_encoder()(x)) implies #[trigger] input_parser()(
        b,
        pos,
    ) == Some((x, pos + input_encoder()(x).len())) by {
        lemma_input_reads_back(b, pos, x);
    }
    assert forall|b: Seq<u8>, pos: int| 0 <= pos implies match #[trigger] input_parser()(b, pos) {
        Some((x, end)) => input_ok()(x) && end == pos + input_encoder()(x).len() && holds_at(
            b,
            pos,
            input_encoder()(x),
        ),
        None => true,
    } by {
        lemma_input_reads_only(b, pos);
    }
    assert forall|b: Seq<u8>, pos: int, x: TransactionOutputView|
        output_ok()(x) && holds_at(b, pos, #[trigger] output_encoder()(x)) implies #[trigger] output_parser()(
        b,
        pos,
    ) == Some((x, pos + output_encoder()(x).len())) by {
        lemma_output_reads_back(b, pos, x);
    }
    assert forall|b: Seq<u8>, pos: int| 0 <= pos implies match #[trigger] output_parser()(b, pos) {
        Some((x, end)) => output_ok()(x) && end == pos + output_encoder()(x).len() && holds_at(
            b,
            pos,
            output_encoder()(x),
        ),
        None => true,
    } by {
        lemma_output_reads_only(b, pos);
    }
}

// ---------------------------------------------------------------------------
// Transactions

/// The number of inputs, the inputs, the number of outputs, the outputs.
pub open spec fn transaction_encoding(tx: TransactionView) -> Seq<u8> {
    u64_encoding(tx.inputs.len() as u64) + encode_each(tx.inputs, input_encoder()) + u64_encoding(
        tx.outputs.len() as u64,
    ) + encode_each(tx.outputs, output_encoder())
}

/// Reads a transaction at `pos`: the value and the position after it.
pub open spec fn parse_transaction(b: Seq<u8>, pos: int) -> Option<(TransactionView, int)> {
    match parse_u64(b, pos) {
        Some((n_in, at1)) => match parse_each(b, at1, n_in as nat, input_parser()) {
            Some((inputs, at2)) => match parse_u64(b, at2) {
                Some((n_out, at3)) => match parse_each(b, at3, n_out as nat, output_parser()) {
                    Some((outputs, at4)) => Some((TransactionView { inputs, outputs }, at4)),
                    None => None,
                },
                None => None,
            },
            None => None,
        },
        None => None,
    }
}

/// Where the encoding of a transaction stands at `pos`, the parser reads it back.
pub proof fn lemma_transaction_reads_back(b: Seq<u8>, pos: int, tx: TransactionView)
    requires
        tx.well_formed(),
        holds_at(b, pos, transaction_encoding(tx)),
    ensures
        parse_transaction(b, pos) == Some((tx, pos + transaction_encoding(tx).len())),
{
    let e1 = u64_encoding(tx.inputs.len() as u64);
    let e2 = encode_each(tx.inputs, input_encoder());
    let e3 = u64_encoding(tx.outputs.len() as u64);
    let e4 = encode_each(tx.outputs, output_encoder());
    lemma_item_formats();
    lemma_holds_at_split(b, pos, e1 + e2 + e3, e4);
    lemma_holds_at_split(b, pos, e1 + e2, e3);
    lemma_holds_at_split(b, pos, e1, e2);
    lemma_u64_reads_back(b, pos, tx.inputs.len() as u64);
    lemma_parse_each_reads_back(b, pos + 8, tx.inputs, input_parser(), input_encoder(), input_ok());
    let at2 = pos + 8 + e2.len();
    lemma_u64_reads_back(b, at2, tx.outputs.len() as u64);
    lemma_parse_each_reads_back(
        b,
        at2 + 8,
        tx.outputs,
        output_parser(),
        output_encoder(),
        output_ok(),
    );
}

/// Whatever the parser reads as a transaction at `pos` is what its encoding
/// wrote there.
pub proof fn lemma_transaction_reads_only(b: Seq<u8>, pos: int)
    ensures
        match parse_transaction(b, pos) {
            Some((tx, end)) => {
                &&& tx.well_formed()
                &&& end == pos + transaction_encoding(tx).len()
                &&& holds_at(b, pos, transaction_encoding(tx))
            },
            None => true,
        },
{
    if let Some((tx, end)) = parse_transaction(b, pos) {
        lemma_item_formats();
        lemma_u64_reads_only(b, pos);
        let n_in = parse_u64(b, pos).unwrap().0;
        lemma_parse_each_reads_only(
            b,
            pos + 8,
            n_in as nat,
            input_parser(),
            input_encoder(),
            input_ok(),
        );
        let e1 = u64_encoding(tx.inputs.len() as u64);
        let e2 = encode_each(tx.inputs, input_encoder());
        let at2 = pos + 8 + e2.len();
        lemma_u64_reads_only(b, at2);
        let n_out = parse_u64(b, at2).unwrap().0;
        lemma_parse_each_reads_only(
            b,
            at2 + 8,
            n_out as nat,
            output_parser(),
            output_encoder(),
            output_ok(),
        );
        let e3 = u64_encoding(tx.outputs.len() as u64);
        let e4 = encode_each(tx.outputs, output_encoder());
        lemma_holds_at_split(b, pos, e1, e2);
        lemma_holds_at_split(b, pos, e1 + e2, e3);
        lemma_holds_at_split(b, pos, e1 + e2 + e3, e4);
    }
}

/// `parse_transaction` as a value, to read lists with.
pub open spec fn transaction_parser() -> Parser<TransactionView> {
    |b: Seq<u8>, pos: int| parse_transaction(b, pos)
}

/// `transaction_encoding` as a value, to write lists with.
pub open spec fn transaction_encoder() -> Encoder<TransactionView> {
    |tx: TransactionView| transaction_encoding(tx)
}

/// `well_formed` of a transaction as a value.
pub open spec fn transaction_ok() -> spec_fn(TransactionView) -> bool {
    |tx: TransactionView| tx.well_formed()
}

/// The parser of transactions reads back what was written, and nothing else.
pub proof fn lemma_transaction_format()
    ensures
        reads_back(transaction_parser(), transaction_encoder(), transaction_ok()),
        reads_only(transaction_parser(), transaction_encoder(), transaction_ok()),
{
    assert forall|b: Seq<u8>, pos: int, x: TransactionView|
        transaction_ok()(x) && holds_at(
            b,
            pos,
            #[trigger] transaction_encoder()(x),
        ) implies #[trigger] transaction_parser()(b, pos) == Some(
        (x, pos + transaction_encoder()(x).len()),
    ) by {
        lemma_transaction_reads_back(b, pos, x);
    }
    assert forall|b: Seq<u8>, pos: int| 0 <= pos implies match #[trigger] transaction_parser()(
        b,
        pos,
    ) {
        Some((x, end)) => transaction_ok()(x) && end == pos + transaction_encoder()(x).len()
            && holds_at(b, pos, transaction_encoder()(x)),
        None => true,
    } by {
        lemma_transaction_reads_only(b, pos);
    }
}

// ---------------------------------------------------------------------------
// Headers and blocks

/// Length of an encoded header, in bytes.
pub const HEADER_LEN: usize = 84;

/// Version, digest of the parent, Merkle root, timestamp, difficulty, nonce.
pub open spec fn header_encoding(h: BlockHeaderView) -> Seq<u8> {
    i32_encoding(h.version) + h.prev_block_hash + h.merkle_root + i64_encoding(h.timestamp)
        + u32_encoding(h.difficulty) + u32_encoding(h.nonce)
}

/// Reads a header at `pos`: the value and the position after it.
pub open spec fn parse_header(b: Seq<u8>, pos: int) -> Option<(BlockHeaderView, int)> {
    match parse_i32(b, pos) {
        Some((version, at1)) => match parse_digest(b, at1) {
            Some((prev_block_hash, at2)) => match parse_digest(b, at2) {
                Some((merkle_root, at3)) => match parse_i64(b, at3) {
                    Some((timestamp, at4)) => match parse_u32(b, at4) {
                        Some((difficulty, at5)) => match parse_u32(b, at5) {
                            Some((nonce, at6)) => Some(
                                (
                                    BlockHeaderView {
                                        version,
                                        prev_block_hash,
                                        merkle_root,
                                        timestamp,
                                        difficulty,
                                        nonce,
                                    },
                                    at6,
                                ),
                            ),
                            None => None,
                        },
                        None => None,
                    },
                    None => None,
                },
                None => None,
            },
            None => None,
        },
        None => None,
    }
}

/// Where the encoding of a header stands at `pos`, the parser reads it back.
pub proof fn lemma_header_reads_back(b: Seq<u8>, pos: int, h: BlockHeaderView)
    requires
        h.well_formed(),
        holds_at(b, pos, header_encoding(h)),
    ensures
        header_encoding(h).len() == HEADER_LEN,
        parse_header(b, pos) == Some((h, pos + HEADER_LEN)),
{
    let e1 = i32_encoding(h.version);
    let e2 = h.prev_block_hash;
    let e3 = h.merkle_root;
    let e4 = i64_encoding(h.timestamp);
    let e5 = u32_encoding(h.difficulty);
    let e6 = u32_encoding(h.nonce);
    lemma_auto_spec_u32_to_from_le_bytes();
    lemma_auto_spec_u64_to_from_le_bytes();
    lemma_holds_at_split(b, pos, e1 + e2 + e3 + e4 + e5, e6);
    lemma_holds_at_split(b, pos, e1 + e2 + e3 + e4, e5);
    lemma_holds_at_split(b, pos, e1 + e2 + e3, e4);
    lemma_holds_at_split(b, pos, e1 + e2, e3);
    lemma_holds_at_split(b, pos, e1, e2);
    lemma_i32_reads_back(b, pos, h.version);
    lemma_i64_reads_back(b, pos + 68, h.timestamp);
    lemma_u32_reads_back(b, pos + 76, h.difficulty);
    lemma_u32_reads_back(b, pos + 80, h.nonce);
}

/// Whatever the parser reads as a header at `pos` is what its encoding
/// wrote there.
pub proof fn lemma_header_reads_only(b: Seq<u8>, pos: int)
    ensures
        match parse_header(b, pos) {
            Some((h, end)) => {
                &&& h.well_formed()
                &&& end == pos + HEADER_LEN
                &&& header_encoding(h).len() == HEADER_LEN
                &&& holds_at(b, pos, header_encoding(h))
            },
            None => true,
        },
{
    if let Some((h, end)) = parse_header(b, pos) {
        let e1 = i32_encoding(h.version);
        let e2 = h.prev_block_hash;
        let e3 = h.merkle_root;
        let e4 = i64_encoding(h.timestamp);
        let e5 = u32_encoding(h.difficulty);
        let e6 = u32_encoding(h.nonce);
        lemma_i32_reads_only(b, pos);
        lemma_i64_reads_only(b, pos + 68);
        lemma_u32_reads_only(b, pos + 76);
        lemma_u32_reads_only(b, pos + 80);
        lemma_holds_at_split(b, pos, e1, e2);
        lemma_holds_at_split(b, pos, e1 + e2, e3);
        lemma_holds_at_split(b, pos, e1 + e2 + e3, e4);
        lemma_holds_at_split(b, pos, e1 + e2 + e3 + e4, e5);
        lemma_holds_at_split(b, pos, e1 + e2 + e3 + e4 + e5, e6);
    }
}

/// The header, the number of transactions, the transactions.
pub open spec fn block_encoding(block: BlockView) -> Seq<u8> {
    header_encoding(block.header) + u64_encoding(block.transactions.len() as u64) + encode_each(
        block.transactions,
        transaction_encoder(),
    )
}

/// Reads a block at `pos`: the value and the position after it.
pub open spec fn parse_block(b: Seq<u8>, pos: int) -> Option<(BlockView, int)> {
    match parse_header(b, pos) {
        Some((header, at1)) => match parse_u64(b, at1) {
            Some((n, at2)) => match parse_each(b, at2, n as nat, transaction_parser()) {
                Some((transactions, at3)) => Some((BlockView { header, transactions }, at3)),
                None => None,
            },
            None => None,
        },
        None => None,
    }
}

/// Where the encoding of a block stands at `pos`, the parser reads it back.
pub proof fn lemma_block_reads_back(b: Seq<u8>, pos: int, block: BlockView)
    requires
        block.well_formed(),
        holds_at(b, pos, block_encoding(block)),
    ensures
        parse_block(b, pos) == Some((block, pos + block_encoding(block).len())),
{
    let e1 = header_encoding(block.header);
    let e2 = u64_encoding(block.transactions.len() as u64);
    let e3 = encode_each(block.transactions, transaction_encoder());
    lemma_transaction_format();
    lemma_holds_at_split(b, pos, e1 + e2, e3);
    lemma_holds_at_split(b, pos, e1, e2);
    lemma_header_reads_back(b, pos, block.header);
    lemma_u64_reads_back(b, pos + HEADER_LEN, block.transactions.len() as u64);
    lemma_parse_each_reads_back(
        b,
        pos + HEADER_LEN + 8,
        block.transactions,
        transaction_parser(),
        transaction_encoder(),
        transaction_ok(),
    );
}

/// Whatever the parser reads as a block at `pos` is what its encoding
/// wrote there.
pub proof fn lemma_block_reads_only(b: Seq<u8>, pos: int)
    ensures
        match parse_block(b, pos) {
            Some((block, end)) => {
                &&& block.well_formed()
                &&& end == pos + block_encoding(block).len()
                &&& holds_at(b, pos, block_encoding(block))
            },
            None => true,
        },
{
    if let Some((block, end)) = parse_block(b, pos) {
        lemma_transaction_format();
        lemma_header_reads_only(b, pos);
        lemma_u64_reads_only(b, pos + HEADER_LEN);
        let n = parse_u64(b, pos + HEADER_LEN).unwrap().0;
        lemma_parse_each_reads_only(
            b,
            pos + HEADER_LEN + 8,
            n as nat,
            transaction_parser(),
            transaction_encoder(),
            transaction_ok(),
        );
        let e1 = header_encoding(block.header);
        let e2 = u64_encoding(block.transactions.len() as u64);
        let e3 = encode_each(block.transactions, transaction_encoder());
        lemma_holds_at_split(b, pos, e1, e2);
        lemma_holds_at_split(b, pos, e1 + e2, e3);
    }
}

// ---------------------------------------------------------------------------
// Whole buffers

/// The transaction that `bytes` encodes, if they encode one and nothing more.
pub open spec fn transaction_decoding(bytes: Seq<u8>) -> Option<TransactionView> {
    match parse_transaction(bytes, 0) {
        Some((tx, end)) => if end == bytes.len() {
            Some(tx)
        } else {
            None
        },
        None => None,
    }
}

/// The block that `bytes` encode, if they encode one and nothing more.
pub open spec fn block_decoding(bytes: Seq<u8>) -> Option<BlockView> {
    match parse_block(bytes, 0) {
        Some((block, end)) => if end == bytes.len() {
            Some(block)
        } else {
            None
        },
        None => None,
    }
}

/// Decoding the encoding of a transaction gives the transaction back.
pub proof fn lemma_transaction_round_trip(tx: TransactionView)
    requires
        tx.well_formed(),
    ensures
        transaction_decoding(transaction_encoding(tx)) == Some(tx),
{
    let bytes = transaction_encoding(tx);
    assert(bytes.subrange(0, bytes.len() as int) =~= bytes);
    lemma_transaction_reads_back(bytes, 0, tx);
}

/// Decoding the encoding of a block gives the block back.
pub proof fn lemma_block_round_trip(block: BlockView)
    requires
        block.well_formed(),
    ensures
        block_decoding(block_encoding(block)) == Some(block),
{
    let bytes = block_encoding(block);
    assert(bytes.subrange(0, bytes.len() as int) =~= bytes);
    lemma_block_reads_back(bytes, 0, block);
}

/// Bytes decode to a transaction only if they are its encoding: no two byte
/// strings decode to the same transaction.
pub proof fn lemma_transaction_decoding_is_canonical(bytes: Seq<u8>)
    ensures
        match transaction_decoding(bytes) {
            Some(tx) => tx.well_formed() && transaction_encoding(tx) == bytes,
            None => true,
        },
{
    lemma_transaction_reads_only(bytes, 0);
    if let Some(tx) = transaction_decoding(bytes) {
        assert(bytes.subrange(0, bytes.len() as int) =~= bytes);
    }
}

/// Bytes decode to a block only if they are its encoding.
pub proof fn lemma_block_decoding_is_canonical(bytes: Seq<u8>)
    ensures
        match block_decoding(bytes) {
            Some(block) => block.well_formed() && block_encoding(block) == bytes,
            None => true,
        },
{
    lemma_block_reads_only(bytes, 0);
    if let Some(block) = block_decoding(bytes) {
        assert(bytes.subrange(0, bytes.len() as int) =~= bytes);
    }
}

/// Transactions with the same encoding are the same transaction.
pub proof fn lemma_transaction_encoding_injective(a: TransactionView, b: TransactionView)
    requires
        a.well_formed(),
        b.well_formed(),
        transaction_encoding(a) == transaction_encoding(b),
    ensures
        a == b,
{
    lemma_transaction_round_trip(a);
    lemma_transaction_round_trip(b);
}

/// Blocks with the same encoding are the same block.
pub proof fn lemma_block_encoding_injective(a: BlockView, b: BlockView)
    requires
        a.well_formed(),
        b.well_formed(),
        block_encoding(a) == block_encoding(b),
    ensures
        a == b,
{
    lemma_block_round_trip(a);
    lemma_block_round_trip(b);
}

} // verus!
