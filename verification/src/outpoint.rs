//! OutPoint: the fixed 36-byte reference to a prior transaction's output.

use vstd::prelude::*;
use vstd::bytes::{
    lemma_auto_spec_u32_to_from_le_bytes, spec_u32_from_le_bytes, spec_u32_to_le_bytes,
    u32_from_le_bytes, u32_to_le_bytes,
};
use vstd::slice::{slice_subrange, slice_to_vec};
use crate::error::BitcoinError;
use crate::txid::Txid;

verus! {

/// A reference to a specific output of a prior transaction: its 32-byte
/// identifier and the output's index within it.
#[derive(Debug, PartialEq, Eq, Clone)]
pub struct OutPoint {
    pub txid: Txid,
    pub vout: u32,
}

/// The mathematical value of an `OutPoint`.
#[verifier::ext_equal]
pub ghost struct OutPointV {
    pub txid: Seq<u8>,
    pub vout: u32,
}

impl View for OutPoint {
    type V = OutPointV;

    open spec fn view(&self) -> OutPointV {
        OutPointV { txid: self.txid@, vout: self.vout }
    }
}

/// An `OutPointV` that an `OutPoint` can hold: the identifier is 32 bytes.
pub open spec fn wf_outpoint(o: OutPointV) -> bool {
    o.txid.len() == 32
}

/// The wire form: the 32 identifier bytes, then the index as 4 bytes
/// little-endian — 36 bytes, always.
pub open spec fn spec_encode_outpoint(o: OutPointV) -> Seq<u8> {
    o.txid + spec_u32_to_le_bytes(o.vout)
}

/// What decoding the front of `b` yields. Any 36 bytes are valid; fewer fail
/// `InsufficientBytes`; exactly 36 are consumed.
pub open spec fn spec_decode_outpoint(b: Seq<u8>) -> Result<(OutPointV, int), BitcoinError> {
    if b.len() < 36 {
        Err(BitcoinError::InsufficientBytes)
    } else {
        Ok(
            (
                OutPointV {
                    txid: b.subrange(0, 32),
                    vout: spec_u32_from_le_bytes(b.subrange(32, 36)),
                },
                36,
            ),
        )
    }
}

impl OutPoint {
    /// Builds an `OutPoint` from raw identifier bytes and an output index.
    pub fn new(txid: [u8; 32], vout: u32) -> (r: Self)
        ensures
            r@ == (OutPointV { txid: txid@, vout }),
    {
        OutPoint { txid: Txid(txid), vout }
    }

    /// Encodes to exactly 36 bytes: identifier, then index little-endian.
    pub fn to_bytes(&self) -> (r: Vec<u8>)
        ensures
            r@ == spec_encode_outpoint(self@),
            r@.len() == 36,
    {
        proof {
            lemma_auto_spec_u32_to_from_le_bytes();
        }
        let mut bytes = slice_to_vec(self.txid.0.as_slice());
        let mut vout_bytes = u32_to_le_bytes(self.vout);
        bytes.append(&mut vout_bytes);
        bytes
    }

    /// Decodes an `OutPoint` from the front of `bytes`, consuming exactly 36
    /// bytes. Trailing bytes are ignored.
    pub fn from_bytes(bytes: &[u8]) -> (r: Result<(Self, usize), BitcoinError>)
        ensures
            match r {
                Ok(p) => spec_decode_outpoint(bytes@) == Ok::<(OutPointV, int), BitcoinError>(
                    (p.0@, p.1 as int),
                ),
                Err(e) => spec_decode_outpoint(bytes@) == Err::<(OutPointV, int), BitcoinError>(e),
            },
    {
        if bytes.len() < 36 {
            return Err(BitcoinError::InsufficientBytes);
        }
        let txid = Txid(crate::txid::bytes32_from_slice(slice_subrange(bytes, 0, 32)));
        let vout = u32_from_le_bytes(slice_subrange(bytes, 32, 36));
        Ok((OutPoint { txid, vout }, 36))
    }
}

/// Round-trip law: decoding an encoded `OutPoint`, with any trailing bytes
/// after it, yields the same value back and consumes exactly 36 bytes.
pub proof fn lemma_outpoint_round_trip(o: OutPointV, rest: Seq<u8>)
    requires
        wf_outpoint(o),
    ensures
        spec_encode_outpoint(o).len() == 36,
        spec_decode_outpoint(spec_encode_outpoint(o) + rest) == Ok::<
            (OutPointV, int),
            BitcoinError,
        >((o, 36)),
{
    lemma_auto_spec_u32_to_from_le_bytes();
    let b = spec_encode_outpoint(o) + rest;
    assert(b.subrange(0, 32) =~= o.txid);
    assert(b.subrange(32, 36) =~= spec_u32_to_le_bytes(o.vout));
    assert(spec_decode_outpoint(b)->Ok_0.0 =~= o);
}

} // verus!
