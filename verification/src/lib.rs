//! Foundational value types for an append-only, hash-linked ledger:
//! an immutable hash-entity byte buffer with hex and base64 renderings,
//! and the block / transaction data model built on top of it.

pub mod block;
pub mod hash;
