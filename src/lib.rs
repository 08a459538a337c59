//! The update table of a Merkle Patricia trie circuit: how one update's walk
//! from the root to a leaf becomes rows, what hash and key-bit lookups those
//! rows ask for, and the constraints that the rows of the table must meet.
//!
//! Field elements are held as their canonical little-endian limbs; the
//! two-input hash that combines a node with its sibling is supplied by the
//! caller as a function.

pub mod field;
pub mod hash;
pub mod mpt_update;
pub mod path;
pub mod proof_type;
pub mod segment;
pub mod trie;
