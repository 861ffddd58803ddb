//! A binary codec for a simplified Bitcoin transaction wire format.
//!
//! The codec converts between in-memory structured values and the exact byte
//! sequences used on the wire: the CompactSize variable-length integer, and
//! the length-prefixed records built on top of it (OutPoint, Script,
//! TransactionInput, BitcoinTransaction). Every encoder and decoder carries a
//! contract that pins the produced or consumed bytes down to the byte.

pub mod compact_size;
pub mod error;
pub mod input;
pub mod outpoint;
pub mod script;
pub mod transaction;
pub mod txid;
