//! Bitcoin's CompactSize variable-length unsigned-integer codec.
//!
//! A value `v <= 0xFC` is one byte, `v`. Larger values are a one-byte prefix
//! (`0xFD`, `0xFE`, `0xFF`) followed by `v` as a 2-, 4- or 8-byte
//! little-endian integer. Decoding rejects non-minimal encodings: a value
//! carried in a wider form than it needs.

use vstd::prelude::*;
use vstd::bytes::{
    lemma_auto_spec_u16_to_from_le_bytes, lemma_auto_spec_u32_to_from_le_bytes,
    lemma_auto_spec_u64_to_from_le_bytes, spec_u16_from_le_bytes, spec_u16_to_le_bytes,
    spec_u32_from_le_bytes, spec_u32_to_le_bytes, spec_u64_from_le_bytes, spec_u64_to_le_bytes,
    u16_from_le_bytes, u16_to_le_bytes, u32_from_le_bytes, u32_to_le_bytes, u64_from_le_bytes,
    u64_to_le_bytes,
};
use vstd::slice::{slice_index_get, slice_subrange};
use crate::error::BitcoinError;

verus! {

/// A 64-bit unsigned value together with its CompactSize wire form.
#[derive(Debug, PartialEq, Eq, Clone, Copy, Structural)]
pub struct CompactSize {
    pub value: u64,
}

/// The CompactSize encoding of `v`: the minimal prefix for its magnitude,
/// then the value itself in little-endian order.
pub open spec fn spec_encode_compact_size(v: u64) -> Seq<u8> {
    if v <= 0xFC {
        seq![v as u8]
    } else if v <= 0xFFFF {
        seq![0xFDu8] + spec_u16_to_le_bytes(v as u16)
    } else if v <= 0xFFFFFFFF {
        seq![0xFEu8] + spec_u32_to_le_bytes(v as u32)
    } else {
        seq![0xFFu8] + spec_u64_to_le_bytes(v)
    }
}

/// What decoding the front of `b` yields: the value and the exact count of
/// bytes consumed, or the error. Overlong encodings fail `InvalidFormat`;
/// inputs shorter than the prefix declares fail `InsufficientBytes`.
pub open spec fn spec_decode_compact_size(b: Seq<u8>) -> Result<(u64, int), BitcoinError> {
    if b.len() == 0 {
        Err(BitcoinError::InsufficientBytes)
    } else if b[0] <= 0xFC {
        Ok((b[0] as u64, 1))
    } else if b[0] == 0xFD {
        if b.len() < 3 {
            Err(BitcoinError::InsufficientBytes)
        } else {
            let v = spec_u16_from_le_bytes(b.subrange(1, 3)) as u64;
            if v < 0xFD {
                Err(BitcoinError::InvalidFormat)
            } else {
                Ok((v, 3))
            }
        }
    } else if b[0] == 0xFE {
        if b.len() < 5 {
            Err(BitcoinError::InsufficientBytes)
        } else {
            let v = spec_u32_from_le_bytes(b.subrange(1, 5)) as u64;
            if v <= 0xFFFF {
                Err(BitcoinError::InvalidFormat)
            } else {
                Ok((v, 5))
            }
        }
    } else {
        if b.len() < 9 {
            Err(BitcoinError::InsufficientBytes)
        } else {
            let v = spec_u64_from_le_bytes(b.subrange(1, 9));
            if v <= 0xFFFFFFFF {
                Err(BitcoinError::InvalidFormat)
            } else {
                Ok((v, 9))
            }
        }
    }
}

impl CompactSize {
    /// Wraps a value; every `u64` is representable.
    pub fn new(value: u64) -> (r: Self)
        ensures
            r.value == value,
    {
        CompactSize { value }
    }

    /// Encodes the value in its minimal CompactSize form.
    pub fn to_bytes(&self) -> (r: Vec<u8>)
        ensures
            r@ == spec_encode_compact_size(self.value),
    {
        let v = self.value;
        if v <= 0xFC {
            let mut bytes: Vec<u8> = Vec::new();
            bytes.push(v as u8);
            proof {
                assert(bytes@ =~= spec_encode_compact_size(v));
            }
            bytes
        } else if v <= 0xFFFF {
            let mut bytes: Vec<u8> = Vec::new();
            bytes.push(0xFD);
            let mut tail = u16_to_le_bytes(v as u16);
            bytes.append(&mut tail);
            proof {
                assert(bytes@ =~= spec_encode_compact_size(v));
            }
            bytes
        } else if v <= 0xFFFFFFFF {
            let mut bytes: Vec<u8> = Vec::new();
            bytes.push(0xFE);
            let mut tail = u32_to_le_bytes(v as u32);
            bytes.append(&mut tail);
            proof {
                assert(bytes@ =~= spec_encode_compact_size(v));
            }
            bytes
        } else {
            let mut bytes: Vec<u8> = Vec::new();
            bytes.push(0xFF);
            let mut tail = u64_to_le_bytes(v);
            bytes.append(&mut tail);
            proof {
                assert(bytes@ =~= spec_encode_compact_size(v));
            }
            bytes
        }
    }

    /// Decodes a CompactSize from the front of `bytes`, returning the value
    /// and the exact count of bytes consumed. Trailing bytes are ignored.
    pub fn from_bytes(bytes: &[u8]) -> (r: Result<(Self, usize), BitcoinError>)
        ensures
            match r {
                Ok(p) => spec_decode_compact_size(bytes@) == Ok::<(u64, int), BitcoinError>(
                    (p.0.value, p.1 as int),
                ),
                Err(e) => spec_decode_compact_size(bytes@) == Err::<(u64, int), BitcoinError>(e),
            },
    {
        if bytes.len() == 0 {
            return Err(BitcoinError::InsufficientBytes);
        }
        let first = *slice_index_get(bytes, 0);
        if first <= 0xFC {
            Ok((CompactSize { value: first as u64 }, 1))
        } else if first == 0xFD {
            if bytes.len() < 3 {
                return Err(BitcoinError::InsufficientBytes);
            }
            let v = u16_from_le_bytes(slice_subrange(bytes, 1, 3)) as u64;
            if v < 0xFD {
                Err(BitcoinError::InvalidFormat)
            } else {
                Ok((CompactSize { value: v }, 3))
            }
        } else if first == 0xFE {
            if bytes.len() < 5 {
                return Err(BitcoinError::InsufficientBytes);
            }
            let v = u32_from_le_bytes(slice_subrange(bytes, 1, 5)) as u64;
            if v <= 0xFFFF {
                Err(BitcoinError::InvalidFormat)
            } else {
                Ok((CompactSize { value: v }, 5))
            }
        } else {
            if bytes.len() < 9 {
                return Err(BitcoinError::InsufficientBytes);
            }
            let v = u64_from_le_bytes(slice_subrange(bytes, 1, 9));
            if v <= 0xFFFFFFFF {
                Err(BitcoinError::InvalidFormat)
            } else {
                Ok((CompactSize { value: v }, 9))
            }
        }
    }
}

/// A successful decode consumes at least one byte and never more than the
/// input holds.
pub proof fn lemma_decode_compact_size_consumed(b: Seq<u8>)
    ensures
        spec_decode_compact_size(b) matches Ok(p) ==> 1 <= p.1 <= b.len(),
{
}

/// Round-trip law: decoding an encoded value, with any trailing bytes after
/// it, yields that value back and consumes exactly the encoding's length.
pub proof fn lemma_compact_size_round_trip(v: u64, rest: Seq<u8>)
    ensures
        spec_decode_compact_size(spec_encode_compact_size(v) + rest) == Ok::<
            (u64, int),
            BitcoinError,
        >((v, spec_encode_compact_size(v).len() as int)),
{
    let e = spec_encode_compact_size(v);
    let b = e + rest;
    if v <= 0xFC {
        assert(b[0] == v as u8);
    } else if v <= 0xFFFF {
        lemma_auto_spec_u16_to_from_le_bytes();
        assert(b[0] == 0xFD);
        assert(b.subrange(1, 3) =~= spec_u16_to_le_bytes(v as u16));
        assert(spec_u16_from_le_bytes(b.subrange(1, 3)) == v as u16);
    } else if v <= 0xFFFFFFFF {
        lemma_auto_spec_u32_to_from_le_bytes();
        assert(b[0] == 0xFE);
        assert(b.subrange(1, 5) =~= spec_u32_to_le_bytes(v as u32));
        assert(spec_u32_from_le_bytes(b.subrange(1, 5)) == v as u32);
    } else {
        lemma_auto_spec_u64_to_from_le_bytes();
        assert(b[0] == 0xFF);
        assert(b.subrange(1, 9) =~= spec_u64_to_le_bytes(v));
        assert(spec_u64_from_le_bytes(b.subrange(1, 9)) == v);
    }
}

} // verus!
