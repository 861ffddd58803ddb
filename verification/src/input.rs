//! TransactionInput: one input record of a transaction.
//!
//! On the wire an input is the OutPoint being spent (36 bytes), its unlocking
//! Script (variable, length-prefixed), and a 4-byte little-endian sequence
//! number. Any Script-level failure is reported as `InsufficientBytes`.

use vstd::prelude::*;
use vstd::bytes::{
    lemma_auto_spec_u32_to_from_le_bytes, spec_u32_from_le_bytes, spec_u32_to_le_bytes,
    u32_from_le_bytes,
};
use vstd::slice::slice_subrange;
use crate::error::BitcoinError;
use crate::outpoint::{spec_encode_outpoint, wf_outpoint, OutPoint, OutPointV};
use crate::script::{
    lemma_decode_script_consumed, lemma_script_round_trip, spec_decode_script, spec_encode_script,
    Script,
};
use crate::txid::{bytes32_from_slice, Txid};

verus! {

/// One transaction input: the prior output it spends, the unlocking script,
/// and the sequence number (carried, not interpreted).
#[derive(Debug, PartialEq, Eq, Clone)]
pub struct TransactionInput {
    pub previous_output: OutPoint,
    pub script_sig: Script,
    pub sequence: u32,
}

/// The mathematical value of a `TransactionInput`.
#[verifier::ext_equal]
pub ghost struct TransactionInputV {
    pub previous_output: OutPointV,
    pub script_sig: Seq<u8>,
    pub sequence: u32,
}

impl View for TransactionInput {
    type V = TransactionInputV;

    open spec fn view(&self) -> TransactionInputV {
        TransactionInputV {
            previous_output: self.previous_output@,
            script_sig: self.script_sig@,
            sequence: self.sequence,
        }
    }
}

/// A `TransactionInputV` that a `TransactionInput` can hold.
pub open spec fn wf_input(i: TransactionInputV) -> bool {
    wf_outpoint(i.previous_output) && i.script_sig.len() <= u64::MAX
}

/// The wire form: OutPoint (36 bytes), Script (length-prefixed), sequence
/// (4 bytes little-endian).
pub open spec fn spec_encode_input(i: TransactionInputV) -> Seq<u8>
    recommends
        wf_input(i),
{
    spec_encode_outpoint(i.previous_output) + spec_encode_script(i.script_sig)
        + spec_u32_to_le_bytes(i.sequence)
}

/// What decoding the front of `b` yields. Fewer than 41 bytes (36 fixed, one
/// for a minimal script prefix, 4 for the sequence) fail at once; a script
/// failure or a missing sequence also fails `InsufficientBytes`.
pub open spec fn spec_decode_input(b: Seq<u8>) -> Result<(TransactionInputV, int), BitcoinError> {
    if b.len() < 41 {
        Err(BitcoinError::InsufficientBytes)
    } else {
        match spec_decode_script(b.skip(36)) {
            Err(_) => Err(BitcoinError::InsufficientBytes),
            Ok((script, script_consumed)) => {
                let sequence_start = 36 + script_consumed;
                if b.len() < sequence_start + 4 {
                    Err(BitcoinError::InsufficientBytes)
                } else {
                    Ok(
                        (
                            TransactionInputV {
                                previous_output: OutPointV {
                                    txid: b.subrange(0, 32),
                                    vout: spec_u32_from_le_bytes(b.subrange(32, 36)),
                                },
                                script_sig: script,
                                sequence: spec_u32_from_le_bytes(
                                    b.subrange(sequence_start, sequence_start + 4),
                                ),
                            },
                            sequence_start + 4,
                        ),
                    )
                }
            },
        }
    }
}

impl TransactionInput {
    /// Assembles an input from its parts.
    pub fn new(previous_output: OutPoint, script_sig: Script, sequence: u32) -> (r: Self)
        ensures
            r@ == (TransactionInputV {
                previous_output: previous_output@,
                script_sig: script_sig@,
                sequence,
            }),
    {
        TransactionInput { previous_output, script_sig, sequence }
    }

    /// Encodes the input: OutPoint, Script, then the sequence number.
    pub fn to_bytes(&self) -> (r: Vec<u8>)
        ensures
            r@ == spec_encode_input(self@),
    {
        let mut bytes = self.previous_output.to_bytes();
        let mut script_bytes = self.script_sig.to_bytes();
        bytes.append(&mut script_bytes);
        let mut sequence_bytes = vstd::bytes::u32_to_le_bytes(self.sequence);
        bytes.append(&mut sequence_bytes);
        bytes
    }

    /// Decodes a `TransactionInput` from the front of `bytes`, returning it
    /// and the exact count of bytes consumed. Trailing bytes are ignored.
    pub fn from_bytes(bytes: &[u8]) -> (r: Result<(Self, usize), BitcoinError>)
        ensures
            match r {
                Ok(p) => spec_decode_input(bytes@) == Ok::<(TransactionInputV, int), BitcoinError>(
                    (p.0@, p.1 as int),
                ),
                Err(e) => spec_decode_input(bytes@) == Err::<
                    (TransactionInputV, int),
                    BitcoinError,
                >(e),
            },
    {
        if bytes.len() < 41 {
            return Err(BitcoinError::InsufficientBytes);
        }
        let txid = Txid(bytes32_from_slice(slice_subrange(bytes, 0, 32)));
        let vout = u32_from_le_bytes(slice_subrange(bytes, 32, 36));
        let previous_output = OutPoint { txid, vout };
        let script_region = slice_subrange(bytes, 36, bytes.len());
        proof {
            assert(script_region@ =~= bytes@.skip(36));
        }
        let (script_sig, script_consumed) = match Script::from_bytes(script_region) {
            Ok(p) => p,
            Err(_) => {
                return Err(BitcoinError::InsufficientBytes);
            },
        };
        proof {
            lemma_decode_script_consumed(bytes@.skip(36));
        }
        let sequence_start: usize = 36 + script_consumed;
        if bytes.len() - sequence_start < 4 {
            return Err(BitcoinError::InsufficientBytes);
        }
        let sequence = u32_from_le_bytes(slice_subrange(bytes, sequence_start, sequence_start + 4));
        Ok((TransactionInput { previous_output, script_sig, sequence }, sequence_start + 4))
    }
}

/// A successful decode consumes at least 41 bytes and never more than the
/// input holds.
pub proof fn lemma_decode_input_consumed(b: Seq<u8>)
    ensures
        spec_decode_input(b) matches Ok(p) ==> 41 <= p.1 <= b.len(),
{
    if b.len() >= 41 {
        lemma_decode_script_consumed(b.skip(36));
    }
}

/// Round-trip law: decoding an encoded input, with any trailing bytes after
/// it, yields the same value back and consumes exactly the encoding's length.
pub proof fn lemma_input_round_trip(i: TransactionInputV, rest: Seq<u8>)
    requires
        wf_input(i),
    ensures
        spec_encode_input(i).len() == 40 + spec_encode_script(i.script_sig).len(),
        spec_decode_input(spec_encode_input(i) + rest) == Ok::<
            (TransactionInputV, int),
            BitcoinError,
        >((i, spec_encode_input(i).len() as int)),
{
    lemma_auto_spec_u32_to_from_le_bytes();
    let outpoint_bytes = spec_encode_outpoint(i.previous_output);
    let script_bytes = spec_encode_script(i.script_sig);
    let sequence_bytes = spec_u32_to_le_bytes(i.sequence);
    let b = spec_encode_input(i) + rest;
    lemma_script_round_trip(i.script_sig, sequence_bytes + rest);
    assert(b.subrange(0, 32) =~= i.previous_output.txid);
    assert(b.subrange(32, 36) =~= spec_u32_to_le_bytes(i.previous_output.vout));
    assert(b.skip(36) =~= script_bytes + (sequence_bytes + rest));
    let sequence_start = 36 + script_bytes.len() as int;
    assert(b.subrange(sequence_start, sequence_start + 4) =~= sequence_bytes);
    assert(spec_decode_input(b)->Ok_0.0 =~= i);
}

} // verus!
