//! Privacy-preserving payment pool core: an append-only incremental Merkle
//! accumulator of deposit commitments, a hash-based commitment/nullifier
//! scheme, a Merkle path verifier, and the nullifier ledger that guards
//! against double spending.

pub mod accumulator;
pub mod errors;
pub mod hashing;
pub mod ladder;
pub mod merkle_proof;
pub mod nullifier;
pub mod pool;
pub mod tree;
