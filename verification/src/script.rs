//! Script: a CompactSize-length-prefixed opaque byte string.
//!
//! The codec carries script payloads without interpreting them. On the wire a
//! script is its byte length as a CompactSize, then the raw bytes. By design
//! of the composition, any CompactSize-level failure — `InvalidFormat`
//! included — is surfaced by this layer as `InsufficientBytes`.

use vstd::prelude::*;
use vstd::slice::{slice_subrange, slice_to_vec};
use crate::compact_size::{
    lemma_compact_size_round_trip, lemma_decode_compact_size_consumed, spec_decode_compact_size,
    spec_encode_compact_size, CompactSize,
};
use crate::error::BitcoinError;

verus! {

/// An opaque script payload, exposed transparently as raw bytes.
#[derive(Debug, PartialEq, Eq, Clone)]
pub struct Script {
    pub bytes: Vec<u8>,
}

impl View for Script {
    type V = Seq<u8>;

    open spec fn view(&self) -> Seq<u8> {
        self.bytes@
    }
}

/// The wire form: the payload's length as a CompactSize, then the payload.
pub open spec fn spec_encode_script(s: Seq<u8>) -> Seq<u8>
    recommends
        s.len() <= u64::MAX,
{
    spec_encode_compact_size(s.len() as u64) + s
}

/// What decoding the front of `b` yields: the payload and the total bytes
/// consumed (prefix plus payload), or `InsufficientBytes` — the error every
/// failure of this layer reports, a CompactSize `InvalidFormat` included.
pub open spec fn spec_decode_script(b: Seq<u8>) -> Result<(Seq<u8>, int), BitcoinError> {
    match spec_decode_compact_size(b) {
        Err(_) => Err(BitcoinError::InsufficientBytes),
        Ok((declared, prefix)) => if b.len() < prefix + declared {
            Err(BitcoinError::InsufficientBytes)
        } else {
            Ok((b.subrange(prefix, prefix + declared), prefix + declared))
        },
    }
}

impl Script {
    /// Wraps a payload; any byte sequence is a valid script.
    pub fn new(bytes: Vec<u8>) -> (r: Self)
        ensures
            r@ == bytes@,
    {
        Script { bytes }
    }

    /// The read-only view over the contained payload bytes.
    pub fn as_bytes(&self) -> (r: &Vec<u8>)
        ensures
            r@ == self@,
    {
        &self.bytes
    }

    /// Encodes the payload behind its CompactSize length prefix.
    pub fn to_bytes(&self) -> (r: Vec<u8>)
        ensures
            r@ == spec_encode_script(self@),
    {
        let mut buffer = CompactSize::new(self.bytes.len() as u64).to_bytes();
        let mut payload = slice_to_vec(self.bytes.as_slice());
        buffer.append(&mut payload);
        buffer
    }

    /// Decodes a `Script` from the front of `bytes`: a CompactSize length,
    /// then exactly that many payload bytes. Trailing bytes are ignored.
    pub fn from_bytes(bytes: &[u8]) -> (r: Result<(Self, usize), BitcoinError>)
        ensures
            match r {
                Ok(p) => spec_decode_script(bytes@) == Ok::<(Seq<u8>, int), BitcoinError>(
                    (p.0@, p.1 as int),
                ),
                Err(e) => spec_decode_script(bytes@) == Err::<(Seq<u8>, int), BitcoinError>(e),
            },
    {
        let (prefix, prefix_len) = match CompactSize::from_bytes(bytes) {
            Ok(p) => p,
            Err(_) => {
                return Err(BitcoinError::InsufficientBytes);
            },
        };
        proof {
            lemma_decode_compact_size_consumed(bytes@);
        }
        let remaining: usize = bytes.len() - prefix_len;
        if (remaining as u64) < prefix.value {
            return Err(BitcoinError::InsufficientBytes);
        }
        let total: usize = prefix_len + (prefix.value as usize);
        let payload = slice_to_vec(slice_subrange(bytes, prefix_len, total));
        Ok((Script { bytes: payload }, total))
    }
}

/// A successful decode consumes at least one byte and never more than the
/// input holds.
pub proof fn lemma_decode_script_consumed(b: Seq<u8>)
    ensures
        spec_decode_script(b) matches Ok(p) ==> 1 <= p.1 <= b.len(),
{
    lemma_decode_compact_size_consumed(b);
}

/// Round-trip law: decoding an encoded script, with any trailing bytes after
/// it, yields the same payload back and consumes exactly the encoding's
/// length.
pub proof fn lemma_script_round_trip(s: Seq<u8>, rest: Seq<u8>)
    requires
        s.len() <= u64::MAX,
    ensures
        spec_encode_script(s).len() == spec_encode_compact_size(s.len() as u64).len() + s.len(),
        spec_decode_script(spec_encode_script(s) + rest) == Ok::<(Seq<u8>, int), BitcoinError>(
            (s, spec_encode_script(s).len() as int),
        ),
{
    let prefix = spec_encode_compact_size(s.len() as u64);
    let b = spec_encode_script(s) + rest;
    lemma_compact_size_round_trip(s.len() as u64, s + rest);
    assert(b =~= prefix + (s + rest));
    assert(b.subrange(prefix.len() as int, (prefix.len() + s.len()) as int) =~= s);
}

} // verus!
