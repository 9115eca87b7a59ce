//! The zero-hash ladder: the hash of an all-zero subtree at every level.
//!
//! `zero_hashes(depth)` is a pure function of the depth alone; entry `i`
//! holds the hash of an empty subtree of height `i + 1`. A fresh pool's
//! frontier and root are seeded from it, and it supplies the default right
//! sibling during sparse appends.

use vstd::prelude::*;
use vstd::arithmetic::power2::*;

use crate::hashing::{hash_pair, zero_value};
use crate::tree::zero_subtree;

verus! {

/// Precomputes the zero hashes for each level of a Merkle tree of the
/// given depth. Fails exactly when the depth is zero.
pub fn zero_hashes(depth: usize) -> (r: Option<Vec<[u8; 32]>>)
    ensures
        match r {
            Some(v) => {
                &&& depth >= 1
                &&& v@.len() == depth
                &&& forall|i: int| 0 <= i < depth ==> v@[i]@ == zero_subtree((i + 1) as nat)
            },
            None => depth == 0,
        },
{
    if depth == 0 {
        return None;
    }
    let z = zero_value();
    let mut v: Vec<[u8; 32]> = Vec::new();
    let first = hash_pair(&z, &z);
    v.push(first);
    proof {
        assert(zero_subtree(1) == crate::hashing::hash_pair_spec(zero_subtree(0), zero_subtree(0)));
        assert(v@[0]@ == zero_subtree(1));
    }
    let mut i: usize = 1;
    while i < depth
        invariant
            1 <= i <= depth,
            v@.len() == i,
            forall|k: int| 0 <= k < i ==> v@[k]@ == zero_subtree((k + 1) as nat),
        decreases depth - i,
    {
        let prev = v[i - 1];
        let h = hash_pair(&prev, &prev);
        v.push(h);
        i += 1;
    }
    Some(v)
}

/// Computes `2^e` for a tree depth, as the accumulator's leaf capacity.
pub fn pow2_u64(e: usize) -> (r: u64)
    requires
        e <= 32,
    ensures
        r == pow2(e as nat),
{
    let mut r: u64 = 1;
    let mut i: usize = 0;
    assert(pow2(0) == 1) by {
        lemma2_to64();
    }
    while i < e
        invariant
            i <= e <= 32,
            r == pow2(i as nat),
        decreases e - i,
    {
        proof {
            lemma_pow2_unfold((i + 1) as nat);
            if i < 32 {
                lemma_pow2_strictly_increases(i as nat, 32);
                assert(pow2(32) == 0x100000000) by {
                    lemma2_to64();
                }
            }
        }
        r = r * 2;
        i += 1;
    }
    r
}

} // verus!
