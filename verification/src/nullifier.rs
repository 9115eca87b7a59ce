//! The nullifier ledger: the set of consumed nullifier hashes.
//!
//! `insert_if_absent` is the sole double-spend guard: it records a
//! nullifier hash exactly once, and every later attempt with the same value
//! fails with `AlreadySpent`. Records are never removed.

use vstd::prelude::*;

use crate::errors::ClawCashError;
use crate::hashing::bytes32_eq;
use crate::merkle_proof::views_of;

verus! {

pub struct NullifierLedger {
    /// The consumed nullifier hashes, in the order they were recorded.
    pub spent: Vec<[u8; 32]>,
}

impl NullifierLedger {
    /// The abstract state: the recorded nullifier hashes in order.
    pub open spec fn view(self) -> Seq<Seq<u8>> {
        views_of(self.spent@)
    }

    /// Whether a nullifier hash has been recorded.
    pub open spec fn contains_spec(self, h: Seq<u8>) -> bool {
        self@.contains(h)
    }

    /// Creates an empty ledger: no nullifier is spent yet.
    pub fn new() -> (r: Self)
        ensures
            r@ == Seq::<Seq<u8>>::empty(),
    {
        let r = NullifierLedger { spent: Vec::new() };
        proof {
            assert(r@ =~= Seq::<Seq<u8>>::empty());
        }
        r
    }

    /// Records a nullifier hash unless it is already present. The second
    /// call with the same value fails with `AlreadySpent` and changes
    /// nothing; a different value is never affected by it.
    pub fn insert_if_absent(&mut self, nullifier_hash: &[u8; 32]) -> (r: Result<
        (),
        ClawCashError,
    >)
        ensures
            old(self).contains_spec(nullifier_hash@) ==> {
                &&& r == Err::<(), ClawCashError>(ClawCashError::AlreadySpent)
                &&& *final(self) == *old(self)
            },
            !old(self).contains_spec(nullifier_hash@) ==> {
                &&& r == Ok::<(), ClawCashError>(())
                &&& final(self)@ == old(self)@.push(nullifier_hash@)
            },
    {
        let mut i: usize = 0;
        while i < self.spent.len()
            invariant
                i <= self.spent@.len(),
                *self == *old(self),
                forall|k: int| 0 <= k < i ==> self.spent@[k]@ != nullifier_hash@,
            decreases self.spent@.len() - i,
        {
            if bytes32_eq(&self.spent[i], nullifier_hash) {
                proof {
                    assert(self@[i as int] == nullifier_hash@);
                }
                return Err(ClawCashError::AlreadySpent);
            }
            i += 1;
        }
        proof {
            assert forall|k: int| 0 <= k < self@.len() implies self@[k] != nullifier_hash@ by {
                assert(self.spent@[k]@ != nullifier_hash@);
            }
        }
        self.spent.push(*nullifier_hash);
        proof {
            assert(self@ =~= old(self)@.push(nullifier_hash@));
        }
        Ok(())
    }

    /// Uniqueness of a recorded nullifier: recording `h` makes exactly `h`
    /// spent — `h` itself is present afterwards, and any other value is
    /// present afterwards exactly if it was present before.
    pub proof fn lemma_insert_records_exactly(s: Seq<Seq<u8>>, h: Seq<u8>, g: Seq<u8>)
        ensures
            s.push(h).contains(h),
            g != h ==> (s.push(h).contains(g) <==> s.contains(g)),
    {
        assert(s.push(h)[s.len() as int] == h);
        if g != h && s.push(h).contains(g) {
            let k = choose|k: int| 0 <= k < s.push(h).len() && s.push(h)[k] == g;
            assert(s[k] == g);
        }
        if s.contains(g) {
            let k = choose|k: int| 0 <= k < s.len() && s[k] == g;
            assert(s.push(h)[k] == g);
        }
    }
}

} // verus!
