//! Encoding and decoding of a reduced, inputs-only Bitcoin transaction wire
//! format: CompactSize integers, transaction ids, outpoints, scripts, inputs
//! and the transaction envelope.
//!
//! Every type has a mathematical model (its view), a spec function giving its
//! exact wire bytes and a spec function giving what decoding a byte sequence
//! yields. The executable `to_bytes` and `from_bytes` are proved to agree with
//! them, and the proof functions beside them state the round-trip and
//! truncation laws of the format.

pub mod compact_size;
pub mod error;
pub mod input;
pub mod laws;
pub mod outpoint;
mod prefix;
pub mod script;
pub mod transaction;
pub mod txid;

pub use crate::compact_size::CompactSize;
pub use crate::error::BitcoinError;
pub use crate::txid::Txid;
pub use crate::input::TransactionInput;
pub use crate::outpoint::OutPoint;
pub use crate::script::Script;
pub use crate::transaction::BitcoinTransaction;
