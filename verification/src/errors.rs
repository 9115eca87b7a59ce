//! The error kinds a pool operation can return.
//!
//! Every public operation returns a success value or one of these kinds;
//! no operation mutates any state on a failure path.

use vstd::prelude::*;

verus! {

#[derive(Clone, Copy, Debug, PartialEq, Eq, Structural)]
pub enum ClawCashError {
    /// The pool id names no supported denomination tier.
    InvalidPool,
    /// The accumulator is at capacity; no further leaf can be appended.
    TreeFull,
    /// The caller's declared leaf index is stale: it does not equal the
    /// accumulator's current next index.
    IndexMismatch,
    /// The sibling path has the wrong length for the pool's tree depth.
    MalformedProof,
    /// The sibling path does not reconcile the claimed leaf to the
    /// pool's current root.
    InvalidProof,
    /// The claimed nullifier hash is not the hash of the revealed preimage.
    ProofMismatch,
    /// The nullifier hash was already recorded by an earlier withdrawal.
    AlreadySpent,
}

} // verus!
