//! The 32-byte transaction identifier and its textual hex form.
//!
//! The wire format carries the identifier as raw bytes; the lowercase
//! hexadecimal string is a display and interchange convenience. The hex
//! alphabet itself is the `hex` crate's work, called through trusted
//! wrappers; this module states exactly what those calls return and proves
//! the length and round-trip facts on top of them.

use vstd::prelude::*;
use crate::error::BitcoinError;

verus! {

/// A fixed 32-byte value referencing a transaction. Equality is byte-wise.
#[derive(Debug, PartialEq, Eq, Clone)]
pub struct Txid(pub [u8; 32]);

impl View for Txid {
    type V = Seq<u8>;

    open spec fn view(&self) -> Seq<u8> {
        self.0@
    }
}

/// The lowercase hex digit for a nibble.
pub open spec fn spec_hex_digit_lower(n: u8) -> char
    recommends
        n < 16,
{
    if n < 10 {
        ((n + 0x30) as u8) as char
    } else {
        ((n + 0x57) as u8) as char
    }
}

/// The lowercase hex encoding of a byte sequence: two digits per byte, high
/// nibble first.
pub open spec fn spec_hex_encode(b: Seq<u8>) -> Seq<char>
    decreases b.len(),
{
    if b.len() == 0 {
        Seq::empty()
    } else {
        seq![spec_hex_digit_lower(b[0] / 16), spec_hex_digit_lower(b[0] % 16)] + spec_hex_encode(
            b.drop_first(),
        )
    }
}

/// Whether `c` is a hex digit, upper or lower case.
pub open spec fn spec_is_hex_digit(c: char) -> bool {
    (0x30 <= c as u32 && c as u32 <= 0x39) || (0x61 <= c as u32 && c as u32 <= 0x66) || (0x41 <= c
        as u32 && c as u32 <= 0x46)
}

/// The value of a hex digit, upper or lower case.
pub open spec fn spec_hex_val(c: char) -> u8
    recommends
        spec_is_hex_digit(c),
{
    if 0x30 <= c as u32 && c as u32 <= 0x39 {
        (c as u32 - 0x30) as u8
    } else if 0x61 <= c as u32 && c as u32 <= 0x66 {
        (c as u32 - 0x57) as u8
    } else {
        (c as u32 - 0x37) as u8
    }
}

/// The bytes a hex digit sequence stands for: one byte per digit pair, high
/// nibble first.
pub open spec fn spec_hex_decode(s: Seq<char>) -> Seq<u8>
    decreases s.len(),
{
    if s.len() < 2 {
        Seq::empty()
    } else {
        seq![(16 * spec_hex_val(s[0]) + spec_hex_val(s[1])) as u8] + spec_hex_decode(s.skip(2))
    }
}

/// Relies on hex::encode: each byte becomes two lowercase hex digits, high
/// nibble first.
#[verifier::external_body]
fn hex_encode(b: &[u8]) -> (r: String)
    ensures
        r@ == spec_hex_encode(b@),
{
    hex::encode(b)
}

/// Relies on hex::decode: it succeeds exactly when the input's length is even
/// and every character is a hex digit (either case), and then turns each
/// digit pair into one byte, high nibble first.
#[verifier::external_body]
fn hex_decode(s: &str) -> (r: Option<Vec<u8>>)
    ensures
        match r {
            Some(v) => s@.len() % 2 == 0 && (forall|i: int|
                0 <= i < s@.len() ==> spec_is_hex_digit(#[trigger] s@[i])) && v@ == spec_hex_decode(
                s@,
            ),
            None => !(s@.len() % 2 == 0 && (forall|i: int|
                0 <= i < s@.len() ==> spec_is_hex_digit(#[trigger] s@[i]))),
        },
{
    hex::decode(s).ok()
}

/// The hex encoding of `b` has exactly two characters per byte.
pub proof fn lemma_hex_encode_len(b: Seq<u8>)
    ensures
        spec_hex_encode(b).len() == 2 * b.len(),
    decreases b.len(),
{
    if b.len() > 0 {
        lemma_hex_encode_len(b.drop_first());
    }
}

/// A hex digit sequence of even length stands for half as many bytes.
pub proof fn lemma_hex_decode_len(s: Seq<char>)
    requires
        s.len() % 2 == 0,
    ensures
        spec_hex_decode(s).len() == s.len() / 2,
    decreases s.len(),
{
    if s.len() >= 2 {
        lemma_hex_decode_len(s.skip(2));
    }
}

/// Hex round trip: the lowercase hex encoding of any byte sequence is even
/// in length, all hex digits, and decodes back to the same bytes.
pub proof fn lemma_hex_round_trip(b: Seq<u8>)
    ensures
        spec_hex_encode(b).len() == 2 * b.len(),
        forall|i: int|
            0 <= i < spec_hex_encode(b).len() ==> spec_is_hex_digit(#[trigger] spec_hex_encode(b)[i]),
        spec_hex_decode(spec_hex_encode(b)) == b,
    decreases b.len(),
{
    lemma_hex_encode_len(b);
    if b.len() == 0 {
        assert(spec_hex_decode(spec_hex_encode(b)) =~= b);
    } else {
        lemma_hex_round_trip(b.drop_first());
        let e = spec_hex_encode(b);
        let hi = spec_hex_digit_lower(b[0] / 16);
        let lo = spec_hex_digit_lower(b[0] % 16);
        assert(spec_is_hex_digit(hi));
        assert(spec_is_hex_digit(lo));
        assert(16 * spec_hex_val(hi) + spec_hex_val(lo) == b[0]);
        assert(e.skip(2) =~= spec_hex_encode(b.drop_first()));
        assert(spec_hex_decode(e) =~= b);
    }
}

impl Txid {
    /// Renders the identifier as its 64-character lowercase hex string.
    pub fn to_hex(&self) -> (r: String)
        ensures
            r@ == spec_hex_encode(self@),
            r@.len() == 64,
    {
        proof {
            lemma_hex_encode_len(self@);
        }
        hex_encode(self.0.as_slice())
    }

    /// Parses a 64-character hex string back into an identifier. Fails with
    /// `InvalidFormat` when the string is not hex or does not stand for
    /// exactly 32 bytes.
    pub fn from_hex(s: &str) -> (r: Result<Txid, BitcoinError>)
        ensures
            match r {
                Ok(t) => s@.len() == 64 && (forall|i: int|
                    0 <= i < s@.len() ==> spec_is_hex_digit(#[trigger] s@[i])) && t@
                    == spec_hex_decode(s@),
                Err(e) => e == BitcoinError::InvalidFormat && !(s@.len() == 64 && (forall|i: int|
                    0 <= i < s@.len() ==> spec_is_hex_digit(#[trigger] s@[i]))),
            },
    {
        match hex_decode(s) {
            None => Err(BitcoinError::InvalidFormat),
            Some(v) => {
                proof {
                    lemma_hex_decode_len(s@);
                }
                if v.len() != 32 {
                    Err(BitcoinError::InvalidFormat)
                } else {
                    Ok(Txid(bytes32_from_slice(v.as_slice())))
                }
            },
        }
    }
}

/// Copies a 32-byte slice into a fixed array.
pub(crate) fn bytes32_from_slice(v: &[u8]) -> (r: [u8; 32])
    requires
        v@.len() == 32,
    ensures
        r@ == v@,
{
    let mut arr: [u8; 32] = [0u8; 32];
    let mut i: usize = 0;
    while i < 32
        invariant
            v@.len() == 32,
            i <= 32,
            forall|j: int| 0 <= j < i ==> arr@[j] == v@[j],
        decreases 32 - i,
    {
        arr[i] = *vstd::slice::slice_index_get(v, i);
        i += 1;
    }
    proof {
        assert(arr@ =~= v@);
    }
    arr
}

} // verus!
