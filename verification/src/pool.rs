//! The per-denomination pool: one accumulator, one denomination, one
//! nullifier ledger, bound together behind the deposit and withdraw
//! operations.
//!
//! `deposit` appends a commitment at the caller's declared index, rejecting
//! stale indices so that two racing deposits can never claim the same leaf.
//! `withdraw` re-derives the commitment and nullifier from the revealed
//! note, checks the sibling path against the current root, and records the
//! nullifier, in that order; its whole decision is the spec function
//! `withdraw_decision`, which mirrors the documented check order. No
//! operation mutates any state on a failure path.

use vstd::prelude::*;
use vstd::arithmetic::power2::*;

use crate::accumulator::IncrementalMerkleAccumulator;
use crate::errors::ClawCashError;
use crate::hashing::{
    bytes32_eq, commitment_spec, compute_commitment, compute_nullifier, nullifier_spec,
};
use crate::merkle_proof::{verify, views_of};
use crate::nullifier::NullifierLedger;
use crate::tree::path_root;

verus! {

/// The denomination, in lamports, of each supported pool tier.
pub open spec fn denomination_of(pool_id: int) -> u64 {
    if pool_id == 0 {
        100_000_000
    } else if pool_id == 1 {
        1_000_000_000
    } else {
        10_000_000_000
    }
}

/// The record created for a deposit: which commitment sits at which leaf
/// of which pool. Immutable once created.
pub struct CommitmentLeaf {
    pub commitment: [u8; 32],
    pub leaf_index: u32,
    pub pool_id: u8,
}

/// The authorization a successful withdrawal emits: the external ledger is
/// to release exactly `amount` to the caller's recipient. Issued at most
/// once per nullifier hash.
pub struct WithdrawalAuthorization {
    pub pool_id: u8,
    pub amount: u64,
    pub nullifier_hash: [u8; 32],
}

pub struct Pool {
    /// The pool tier; fixed at initialization.
    pub pool_id: u8,
    /// The amount, in lamports, of every deposit into and withdrawal from
    /// this pool; fixed at initialization.
    pub denomination: u64,
    /// The append-only commitment accumulator.
    pub accumulator: IncrementalMerkleAccumulator,
    /// The consumed nullifiers of this pool.
    pub nullifiers: NullifierLedger,
}

impl Pool {
    pub open spec fn wf(self) -> bool {
        &&& self.pool_id < 3
        &&& self.denomination == denomination_of(self.pool_id as int)
        &&& self.accumulator.wf()
    }

    /// The commitments deposited so far, in insertion order.
    pub open spec fn leaves(self) -> Seq<Seq<u8>> {
        self.accumulator@
    }

    pub open spec fn depth_spec(self) -> nat {
        self.accumulator.depth_spec()
    }

    /// The accumulator's current root.
    pub open spec fn root_seq(self) -> Seq<u8> {
        self.accumulator.root_seq()
    }

    /// The nullifier hashes consumed so far.
    pub open spec fn spent(self) -> Seq<Seq<u8>> {
        self.nullifiers@
    }

    pub open spec fn at_capacity(self) -> bool {
        self.leaves().len() >= pow2(self.depth_spec())
    }

    /// Which outcome `deposit` owes for a declared pool id and leaf index:
    /// the wrong pool is rejected, then a full tree, then a stale index.
    pub open spec fn deposit_decision(self, pool_id: u8, leaf_index: int) -> Result<
        (),
        ClawCashError,
    > {
        if pool_id != self.pool_id {
            Err(ClawCashError::InvalidPool)
        } else if self.at_capacity() {
            Err(ClawCashError::TreeFull)
        } else if leaf_index != self.leaves().len() {
            Err(ClawCashError::IndexMismatch)
        } else {
            Ok(())
        }
    }

    /// Which outcome `withdraw` owes for a revealed note: a nullifier hash
    /// that does not match the preimage is rejected first, then a path of
    /// the wrong length, then a path that does not reconcile the derived
    /// commitment to the current root, then a nullifier already spent.
    pub open spec fn withdraw_decision(
        self,
        secret: Seq<u8>,
        preimage: Seq<u8>,
        nullifier_hash: Seq<u8>,
        leaf_index: int,
        path: Seq<Seq<u8>>,
    ) -> Result<(), ClawCashError> {
        if nullifier_spec(preimage) != nullifier_hash {
            Err(ClawCashError::ProofMismatch)
        } else if path.len() != self.depth_spec() {
            Err(ClawCashError::MalformedProof)
        } else if path_root(commitment_spec(secret, preimage), leaf_index, path)
            != self.root_seq() {
            Err(ClawCashError::InvalidProof)
        } else if self.spent().contains(nullifier_hash) {
            Err(ClawCashError::AlreadySpent)
        } else {
            Ok(())
        }
    }

    /// Initializes a pool of the given tier and tree depth: an empty
    /// accumulator seeded from the zero-hash ladder, the tier's fixed
    /// denomination, and no spent nullifiers. Fails with `InvalidPool`
    /// exactly when the tier is not one of the supported three.
    pub fn new(pool_id: u8, depth: usize) -> (r: Result<Pool, ClawCashError>)
        requires
            1 <= depth <= 32,
        ensures
            pool_id < 3 ==> {
                &&& r is Ok
                &&& r->Ok_0.wf()
                &&& r->Ok_0.pool_id == pool_id
                &&& r->Ok_0.denomination == denomination_of(pool_id as int)
                &&& r->Ok_0.depth_spec() == depth
                &&& r->Ok_0.leaves() == Seq::<Seq<u8>>::empty()
                &&& r->Ok_0.spent() == Seq::<Seq<u8>>::empty()
            },
            pool_id >= 3 ==> r == Err::<Pool, ClawCashError>(ClawCashError::InvalidPool),
    {
        if pool_id >= 3 {
            return Err(ClawCashError::InvalidPool);
        }
        let denomination: u64 = if pool_id == 0 {
            100_000_000
        } else if pool_id == 1 {
            1_000_000_000
        } else {
            10_000_000_000
        };
        Ok(
            Pool {
                pool_id,
                denomination,
                accumulator: IncrementalMerkleAccumulator::new(depth),
                nullifiers: NullifierLedger::new(),
            },
        )
    }

    /// Deposits a commitment at the caller's declared leaf index. On
    /// success the commitment becomes the next leaf and its record is
    /// returned; on any failure the pool is unchanged.
    pub fn deposit(&mut self, commitment: &[u8; 32], pool_id: u8, leaf_index: u32) -> (r: Result<
        CommitmentLeaf,
        ClawCashError,
    >)
        requires
            old(self).wf(),
        ensures
            final(self).wf(),
            ({
                let d = old(self).deposit_decision(pool_id, leaf_index as int);
                &&& (d is Err ==> r is Err && r->Err_0 == d->Err_0 && *final(self) == *old(self))
                &&& (d is Ok ==> {
                    &&& r is Ok
                    &&& r->Ok_0.commitment == *commitment
                    &&& r->Ok_0.leaf_index == old(self).leaves().len()
                    &&& r->Ok_0.pool_id == pool_id
                    &&& final(self).leaves() == old(self).leaves().push(commitment@)
                    &&& final(self).spent() == old(self).spent()
                    &&& final(self).depth_spec() == old(self).depth_spec()
                    &&& final(self).pool_id == old(self).pool_id
                    &&& final(self).denomination == old(self).denomination
                })
            }),
    {
        if pool_id != self.pool_id {
            return Err(ClawCashError::InvalidPool);
        }
        match self.accumulator.append_at(commitment, leaf_index) {
            Ok(assigned) => Ok(
                CommitmentLeaf { commitment: *commitment, leaf_index: assigned, pool_id },
            ),
            Err(e) => Err(e),
        }
    }

    /// Withdraws against a revealed note. The checks run in the documented
    /// order — nullifier consistency, path length, path against the current
    /// root, double spend — and only when all pass is the nullifier
    /// recorded and the authorization for exactly the pool's denomination
    /// emitted. On any failure the pool is unchanged.
    pub fn withdraw(
        &mut self,
        secret: &[u8; 32],
        nullifier_preimage: &[u8; 32],
        nullifier_hash: &[u8; 32],
        leaf_index: u32,
        path: &Vec<[u8; 32]>,
    ) -> (r: Result<WithdrawalAuthorization, ClawCashError>)
        requires
            old(self).wf(),
        ensures
            final(self).wf(),
            ({
                let d = old(self).withdraw_decision(
                    secret@,
                    nullifier_preimage@,
                    nullifier_hash@,
                    leaf_index as int,
                    views_of(path@),
                );
                &&& (d is Err ==> r is Err && r->Err_0 == d->Err_0 && *final(self) == *old(self))
                &&& (d is Ok ==> {
                    &&& r is Ok
                    &&& r->Ok_0.pool_id == old(self).pool_id
                    &&& r->Ok_0.amount == old(self).denomination
                    &&& r->Ok_0.nullifier_hash == *nullifier_hash
                    &&& final(self).spent() == old(self).spent().push(nullifier_hash@)
                    &&& final(self).accumulator == old(self).accumulator
                    &&& final(self).pool_id == old(self).pool_id
                    &&& final(self).denomination == old(self).denomination
                })
            }),
    {
        let computed_nullifier = compute_nullifier(nullifier_preimage);
        if !bytes32_eq(&computed_nullifier, nullifier_hash) {
            return Err(ClawCashError::ProofMismatch);
        }
        let commitment = compute_commitment(secret, nullifier_preimage);
        let expected_root = self.accumulator.current_root;
        let depth = self.accumulator.depth;
        let matches_root = match verify(&commitment, leaf_index, path, &expected_root, depth) {
            Ok(b) => b,
            Err(e) => {
                return Err(e);
            },
        };
        if !matches_root {
            return Err(ClawCashError::InvalidProof);
        }
        match self.nullifiers.insert_if_absent(nullifier_hash) {
            Ok(_) => {},
            Err(e) => {
                return Err(e);
            },
        }
        Ok(
            WithdrawalAuthorization {
                pool_id: self.pool_id,
                amount: self.denomination,
                nullifier_hash: *nullifier_hash,
            },
        )
    }
}

} // verus!
