//! The chain data model: blocks, transactions, headers and JSON-like
//! metadata values, built on the hash entity. These are plain data
//! aggregates; validation (merkle roots, signatures, sequence order,
//! previous-hash linkage) is the responsibility of an external
//! consensus component.

use crate::hash::IHashEntity;
use std::collections::HashMap;
use vstd::prelude::*;

verus! {

/// One JSON-like scalar: a closed set of four variants, so every
/// consumer must handle each case. A number is carried as the bit
/// pattern of its IEEE-754 double-precision value, which keeps the
/// model free of floating-point arithmetic; the boundary that renders
/// or parses JSON converts to and from the numeric type.
#[derive(Debug, Clone)]
pub enum JsonValue {
    String(String),
    Number(u64),
    Bool(bool),
    Null,
}

/// Per-block header fields. `ts` and `timestamp` are intentionally
/// redundant; the producer keeps them in sync, and neither is
/// authoritative here. `merkle_root` is computed externally and only
/// carried.
#[derive(Debug, Clone)]
pub struct BlockHeaders {
    pub ts: u64,
    pub timestamp: String,
    pub content_length: usize,
    pub merkle_root: String,
    pub version: u32,
    pub nonce: u64,
}

/// One application-defined payload plus a caller-assigned sequence
/// number. Uniqueness of `sequence` within its scope is the producer's
/// responsibility; this model only carries the field.
#[derive(Debug, Clone)]
pub struct Transaction<T> {
    pub payload: T,
    pub sequence: u64,
}

/// One unit of the hash-linked chain. Transaction order is the
/// canonical order committed into the block. `previous_hash` refers to
/// the predecessor's digest; for a genesis block it is a caller-defined
/// sentinel such as a zero-length buffer. Both signatures are computed
/// externally and only stored.
#[derive(Debug, Clone)]
pub struct Block<T> {
    pub _id: String,
    pub public_block_id: String,
    pub previous_hash: IHashEntity,
    pub sequence: u64,
    pub transactions: Vec<Transaction<T>>,
    pub headers: BlockHeaders,
    pub metadata: HashMap<String, JsonValue>,
    pub content_signature: IHashEntity,
    pub block_signature: IHashEntity,
}

/// A block at the start of its chain: height zero, with an empty
/// previous-hash sentinel.
pub open spec fn is_genesis<T>(b: &Block<T>) -> bool {
    b.sequence == 0 && b.previous_hash@.len() == 0
}

/// A genesis block is distinguishable from any block at a positive
/// height; the model itself enforces no ordering beyond that.
pub proof fn lemma_genesis_distinguishable<T>(b: &Block<T>)
    requires
        b.sequence > 0,
    ensures
        !is_genesis(b),
{
}

} // verus!
