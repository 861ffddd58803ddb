//! BitcoinTransaction: the top-level wire record.
//!
//! On the wire a transaction is a 4-byte little-endian version, a
//! CompactSize count of inputs, that many TransactionInput records
//! back-to-back, and a 4-byte little-endian lock-time. Unconsumed trailing
//! bytes are not an error at this layer: the caller owns buffer boundaries.

use vstd::prelude::*;
use vstd::bytes::{
    lemma_auto_spec_u32_to_from_le_bytes, spec_u32_from_le_bytes, spec_u32_to_le_bytes,
    u32_from_le_bytes, u32_to_le_bytes,
};
use vstd::slice::slice_subrange;
use crate::compact_size::{
    lemma_compact_size_round_trip, lemma_decode_compact_size_consumed, spec_decode_compact_size,
    spec_encode_compact_size, CompactSize,
};
use crate::error::BitcoinError;
use crate::input::{
    lemma_decode_input_consumed, lemma_input_round_trip, spec_decode_input, spec_encode_input,
    wf_input, TransactionInput, TransactionInputV,
};

verus! {

/// A transaction: version, an ordered sequence of inputs, and lock-time.
#[derive(Debug, PartialEq, Eq, Clone)]
pub struct BitcoinTransaction {
    pub version: u32,
    pub inputs: Vec<TransactionInput>,
    pub lock_time: u32,
}

/// The mathematical value of a `BitcoinTransaction`.
#[verifier::ext_equal]
pub ghost struct BitcoinTransactionV {
    pub version: u32,
    pub inputs: Seq<TransactionInputV>,
    pub lock_time: u32,
}

impl View for BitcoinTransaction {
    type V = BitcoinTransactionV;

    open spec fn view(&self) -> BitcoinTransactionV {
        BitcoinTransactionV {
            version: self.version,
            inputs: self.inputs@.map_values(|x: TransactionInput| x@),
            lock_time: self.lock_time,
        }
    }
}

/// A `BitcoinTransactionV` that a `BitcoinTransaction` can hold.
pub open spec fn wf_transaction(t: BitcoinTransactionV) -> bool {
    t.inputs.len() <= u64::MAX && (forall|j: int|
        0 <= j < t.inputs.len() ==> wf_input(#[trigger] t.inputs[j]))
}

/// The concatenation of the inputs' wire forms, in order.
pub open spec fn spec_encode_inputs(inputs: Seq<TransactionInputV>) -> Seq<u8>
    decreases inputs.len(),
{
    if inputs.len() == 0 {
        Seq::empty()
    } else {
        spec_encode_input(inputs[0]) + spec_encode_inputs(inputs.drop_first())
    }
}

/// The wire form: version, CompactSize input count, each input in order,
/// lock-time.
pub open spec fn spec_encode_transaction(t: BitcoinTransactionV) -> Seq<u8>
    recommends
        wf_transaction(t),
{
    spec_u32_to_le_bytes(t.version) + spec_encode_compact_size(t.inputs.len() as u64)
        + spec_encode_inputs(t.inputs) + spec_u32_to_le_bytes(t.lock_time)
}

/// What decoding exactly `n` inputs from the front of `b` yields: the inputs
/// and the total bytes they consumed, or the first failure.
pub open spec fn spec_decode_inputs(b: Seq<u8>, n: nat) -> Result<
    (Seq<TransactionInputV>, int),
    BitcoinError,
>
    decreases n,
{
    if n == 0 {
        Ok((Seq::empty(), 0))
    } else {
        match spec_decode_input(b) {
            Err(e) => Err(e),
            Ok((input, consumed)) => match spec_decode_inputs(
                b.skip(consumed),
                (n - 1) as nat,
            ) {
                Err(e) => Err(e),
                Ok((rest, rest_consumed)) => Ok((seq![input] + rest, consumed + rest_consumed)),
            },
        }
    }
}

/// What decoding the front of `b` yields: the transaction and the total
/// bytes consumed, or the first failure. A CompactSize failure at the count
/// propagates unchanged, `InvalidFormat` included.
pub open spec fn spec_decode_transaction(b: Seq<u8>) -> Result<
    (BitcoinTransactionV, int),
    BitcoinError,
> {
    if b.len() < 4 {
        Err(BitcoinError::InsufficientBytes)
    } else {
        match spec_decode_compact_size(b.skip(4)) {
            Err(e) => Err(e),
            Ok((count, prefix)) => match spec_decode_inputs(b.skip(4 + prefix), count as nat) {
                Err(e) => Err(e),
                Ok((inputs, inputs_consumed)) => {
                    let lock_start = 4 + prefix + inputs_consumed;
                    if b.len() < lock_start + 4 {
                        Err(BitcoinError::InsufficientBytes)
                    } else {
                        Ok(
                            (
                                BitcoinTransactionV {
                                    version: spec_u32_from_le_bytes(b.subrange(0, 4)),
                                    inputs,
                                    lock_time: spec_u32_from_le_bytes(
                                        b.subrange(lock_start, lock_start + 4),
                                    ),
                                },
                                lock_start + 4,
                            ),
                        )
                    }
                },
            },
        }
    }
}

/// Continues a partial inputs decode: what the whole decode yields once
/// `done` inputs taking `consumed` bytes are behind and `n` more are owed
/// from `b`.
spec fn spec_decode_inputs_cont(
    done: Seq<TransactionInputV>,
    consumed: int,
    b: Seq<u8>,
    n: nat,
) -> Result<(Seq<TransactionInputV>, int), BitcoinError> {
    match spec_decode_inputs(b, n) {
        Err(e) => Err(e),
        Ok((rest, rest_consumed)) => Ok((done + rest, consumed + rest_consumed)),
    }
}

/// Appending one input to a batch appends its encoding.
proof fn lemma_encode_inputs_push(s: Seq<TransactionInputV>, x: TransactionInputV)
    ensures
        spec_encode_inputs(s.push(x)) == spec_encode_inputs(s) + spec_encode_input(x),
    decreases s.len(),
{
    if s.len() == 0 {
        assert(s.push(x).drop_first() =~= Seq::<TransactionInputV>::empty());
        assert(s.push(x)[0] == x);
        assert(spec_encode_inputs(Seq::<TransactionInputV>::empty()) == Seq::<u8>::empty());
        assert(spec_encode_inputs(s.push(x)) =~= spec_encode_inputs(s) + spec_encode_input(x));
    } else {
        lemma_encode_inputs_push(s.drop_first(), x);
        assert(s.push(x).drop_first() =~= s.drop_first().push(x));
        assert(spec_encode_inputs(s.push(x)) =~= spec_encode_inputs(s) + spec_encode_input(x));
    }
}

impl BitcoinTransaction {
    /// Assembles a transaction from its parts.
    pub fn new(version: u32, inputs: Vec<TransactionInput>, lock_time: u32) -> (r: Self)
        ensures
            r@ == (BitcoinTransactionV {
                version,
                inputs: inputs@.map_values(|x: TransactionInput| x@),
                lock_time,
            }),
    {
        BitcoinTransaction { version, inputs, lock_time }
    }

    /// Encodes the transaction: version, input count, inputs, lock-time.
    pub fn to_bytes(&self) -> (r: Vec<u8>)
        ensures
            r@ == spec_encode_transaction(self@),
    {
        let ghost all = self.inputs@.map_values(|x: TransactionInput| x@);
        let mut bytes = u32_to_le_bytes(self.version);
        let mut count_bytes = CompactSize::new(self.inputs.len() as u64).to_bytes();
        bytes.append(&mut count_bytes);
        let ghost head = spec_u32_to_le_bytes(self.version) + spec_encode_compact_size(
            self.inputs@.len() as u64,
        );
        let mut idx: usize = 0;
        while idx < self.inputs.len()
            invariant
                idx <= self.inputs@.len(),
                all == self.inputs@.map_values(|x: TransactionInput| x@),
                all.len() == self.inputs@.len(),
                head == spec_u32_to_le_bytes(self.version) + spec_encode_compact_size(
                    self.inputs@.len() as u64,
                ),
                bytes@ == head + spec_encode_inputs(all.take(idx as int)),
            decreases self.inputs@.len() - idx,
        {
            let input = &self.inputs[idx];
            let mut input_bytes = input.to_bytes();
            bytes.append(&mut input_bytes);
            proof {
                assert(all[idx as int] == self.inputs@[idx as int]@);
                assert(all.take(idx + 1) =~= all.take(idx as int).push(all[idx as int]));
                lemma_encode_inputs_push(all.take(idx as int), all[idx as int]);
                assert(bytes@ =~= head + spec_encode_inputs(all.take(idx + 1)));
            }
            idx += 1;
        }
        let mut lock_bytes = u32_to_le_bytes(self.lock_time);
        bytes.append(&mut lock_bytes);
        proof {
            assert(all.take(all.len() as int) =~= all);
            assert(bytes@ =~= spec_encode_transaction(self@));
        }
        bytes
    }

    /// Decodes a `BitcoinTransaction` from the front of `bytes`, returning it
    /// and the exact count of bytes consumed. Trailing bytes are ignored.
    pub fn from_bytes(bytes: &[u8]) -> (r: Result<(Self, usize), BitcoinError>)
        ensures
            match r {
                Ok(p) => spec_decode_transaction(bytes@) == Ok::<
                    (BitcoinTransactionV, int),
                    BitcoinError,
                >((p.0@, p.1 as int)),
                Err(e) => spec_decode_transaction(bytes@) == Err::<
                    (BitcoinTransactionV, int),
                    BitcoinError,
                >(e),
            },
    {
        if bytes.len() < 4 {
            return Err(BitcoinError::InsufficientBytes);
        }
        let version = u32_from_le_bytes(slice_subrange(bytes, 0, 4));
        let count_region = slice_subrange(bytes, 4, bytes.len());
        proof {
            assert(count_region@ =~= bytes@.skip(4));
        }
        let (count, prefix_len) = match CompactSize::from_bytes(count_region) {
            Ok(p) => p,
            Err(e) => {
                return Err(e);
            },
        };
        proof {
            lemma_decode_compact_size_consumed(bytes@.skip(4));
        }
        let n: u64 = count.value;
        let start: usize = 4 + prefix_len;
        let mut offset: usize = start;
        let mut inputs: Vec<TransactionInput> = Vec::new();
        let mut k: u64 = 0;
        proof {
            assert(inputs@.map_values(|x: TransactionInput| x@) + spec_decode_inputs(
                bytes@.skip(offset as int),
                n as nat,
            )->Ok_0.0 =~= spec_decode_inputs(bytes@.skip(offset as int), n as nat)->Ok_0.0);
        }
        while k < n
            invariant
                k <= n,
                4 <= start <= offset <= bytes@.len(),
                start == 4 + prefix_len,
                inputs@.len() == k,
                spec_decode_compact_size(bytes@.skip(4)) == Ok::<(u64, int), BitcoinError>(
                    (n, prefix_len as int),
                ),
                spec_decode_inputs_cont(
                    inputs@.map_values(|x: TransactionInput| x@),
                    offset - start,
                    bytes@.skip(offset as int),
                    (n - k) as nat,
                ) == spec_decode_inputs(bytes@.skip(start as int), n as nat),
            decreases n - k,
        {
            let input_region = slice_subrange(bytes, offset, bytes.len());
            proof {
                assert(input_region@ =~= bytes@.skip(offset as int));
            }
            let ghost done_before = inputs@.map_values(|x: TransactionInput| x@);
            let (input, consumed) = match TransactionInput::from_bytes(input_region) {
                Ok(p) => p,
                Err(e) => {
                    return Err(e);
                },
            };
            proof {
                lemma_decode_input_consumed(bytes@.skip(offset as int));
            }
            inputs.push(input);
            proof {
                assert(inputs@.map_values(|x: TransactionInput| x@) =~= done_before.push(input@));
                assert(bytes@.skip(offset as int).skip(consumed as int) =~= bytes@.skip(
                    offset + consumed,
                ));
                assert forall|rest: Seq<TransactionInputV>|
                    (done_before + (seq![input@] + rest)) =~= (done_before.push(input@)
                    + rest) by {}
            }
            offset = offset + consumed;
            k = k + 1;
        }
        if bytes.len() - offset < 4 {
            return Err(BitcoinError::InsufficientBytes);
        }
        let lock_time = u32_from_le_bytes(slice_subrange(bytes, offset, offset + 4));
        proof {
            let done = inputs@.map_values(|x: TransactionInput| x@);
            assert(done + Seq::<TransactionInputV>::empty() =~= done);
        }
        Ok((BitcoinTransaction { version, inputs, lock_time }, offset + 4))
    }
}

/// Round-trip law for input batches: decoding the concatenated encodings of
/// `inputs`, with any trailing bytes after them, yields the same inputs and
/// consumes exactly the encodings' total length.
pub proof fn lemma_inputs_round_trip(inputs: Seq<TransactionInputV>, rest: Seq<u8>)
    requires
        forall|j: int| 0 <= j < inputs.len() ==> wf_input(#[trigger] inputs[j]),
    ensures
        spec_decode_inputs(spec_encode_inputs(inputs) + rest, inputs.len()) == Ok::<
            (Seq<TransactionInputV>, int),
            BitcoinError,
        >((inputs, spec_encode_inputs(inputs).len() as int)),
    decreases inputs.len(),
{
    if inputs.len() == 0 {
        assert(spec_decode_inputs(spec_encode_inputs(inputs) + rest, inputs.len())->Ok_0.0
            =~= inputs);
    } else {
        let first = inputs[0];
        let tail = inputs.drop_first();
        let first_bytes = spec_encode_input(first);
        let tail_bytes = spec_encode_inputs(tail);
        let b = spec_encode_inputs(inputs) + rest;
        assert(b =~= first_bytes + (tail_bytes + rest));
        lemma_input_round_trip(first, tail_bytes + rest);
        assert(b.skip(first_bytes.len() as int) =~= tail_bytes + rest);
        lemma_inputs_round_trip(tail, rest);
        assert(seq![first] + tail =~= inputs);
    }
}

/// Round-trip law: decoding an encoded transaction, with any trailing bytes
/// after it, yields the same value back and consumes exactly the encoding's
/// length.
pub proof fn lemma_transaction_round_trip(t: BitcoinTransactionV, rest: Seq<u8>)
    requires
        wf_transaction(t),
    ensures
        spec_decode_transaction(spec_encode_transaction(t) + rest) == Ok::<
            (BitcoinTransactionV, int),
            BitcoinError,
        >((t, spec_encode_transaction(t).len() as int)),
{
    lemma_auto_spec_u32_to_from_le_bytes();
    let version_bytes = spec_u32_to_le_bytes(t.version);
    let count_bytes = spec_encode_compact_size(t.inputs.len() as u64);
    let inputs_bytes = spec_encode_inputs(t.inputs);
    let lock_bytes = spec_u32_to_le_bytes(t.lock_time);
    let b = spec_encode_transaction(t) + rest;
    assert(b.subrange(0, 4) =~= version_bytes);
    assert(b.skip(4) =~= count_bytes + (inputs_bytes + (lock_bytes + rest)));
    lemma_compact_size_round_trip(t.inputs.len() as u64, inputs_bytes + (lock_bytes + rest));
    assert(b.skip(4 + count_bytes.len() as int) =~= inputs_bytes + (lock_bytes + rest));
    lemma_inputs_round_trip(t.inputs, lock_bytes + rest);
    assert((t.inputs.len() as u64) as nat == t.inputs.len());
    let lock_start: int = 4 + count_bytes.len() as int + inputs_bytes.len() as int;
    assert(b.subrange(lock_start, lock_start + 4) =~= lock_bytes);
    assert(spec_decode_transaction(b)->Ok_0.0 =~= t);
}

} // verus!
