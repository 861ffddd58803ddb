//! The error taxonomy shared by all decoders.

use vstd::prelude::*;

verus! {

/// Why a decode failed.
///
/// `InsufficientBytes`: the input is shorter than what the format requires.
/// `InvalidFormat`: enough bytes are present but they violate a format rule
/// (raised only for non-minimal CompactSize encodings).
#[derive(Debug, PartialEq, Eq, Clone, Copy, Structural)]
pub enum BitcoinError {
    InsufficientBytes,
    InvalidFormat,
}

} // verus!
