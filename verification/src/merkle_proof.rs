//! The Merkle proof verifier and the sibling-path derivation.
//!
//! `verify` is the single source of truth for "does this leaf belong to
//! this root": it folds a sibling path upward from the leaf, combining left
//! or right by the index's parity at each level, and compares the result to
//! the expected root. `compute_sibling_path` derives the honest path for a
//! leaf from the full leaf history, as a depositor or any observer can.

use vstd::prelude::*;
use vstd::arithmetic::power2::*;

use crate::accumulator::IncrementalMerkleAccumulator;
use crate::errors::ClawCashError;
use crate::hashing::{bytes32_eq, hash_pair, zero_value};
use crate::tree::{
    leaf_at, lemma_round_trip, node_hash, path_root, sibling_of, sibling_path,
};

verus! {

/// The byte sequences held by a vector of 32-byte values.
pub open spec fn views_of(s: Seq<[u8; 32]>) -> Seq<Seq<u8>> {
    s.map_values(|x: [u8; 32]| x@)
}

/// Folds the sibling path upward from the leaf: at each level, the
/// candidate is combined on the side given by the index's parity.
pub fn compute_path_root(leaf: &[u8; 32], index: u32, path: &Vec<[u8; 32]>) -> (r: [u8; 32])
    ensures
        r@ == path_root(leaf@, index as int, views_of(path@)),
{
    let mut current: [u8; 32] = *leaf;
    let mut idx: u64 = index as u64;
    let mut i: usize = 0;
    proof {
        assert(views_of(path@).skip(0) =~= views_of(path@));
    }
    while i < path.len()
        invariant
            i <= path@.len(),
            0 <= idx,
            path_root(leaf@, index as int, views_of(path@)) == path_root(
                current@,
                idx as int,
                views_of(path@).skip(i as int),
            ),
        decreases path@.len() - i,
    {
        proof {
            assert(views_of(path@).skip(i as int)[0] == path@[i as int]@);
            assert(views_of(path@).skip(i as int).drop_first() =~= views_of(path@).skip(
                i as int + 1,
            ));
        }
        if idx % 2 == 0 {
            current = hash_pair(&current, &path[i]);
        } else {
            current = hash_pair(&path[i], &current);
        }
        idx = idx / 2;
        i += 1;
    }
    proof {
        assert(views_of(path@).skip(path@.len() as int) =~= Seq::<Seq<u8>>::empty());
    }
    current
}

/// Checks whether `leaf` at `index` belongs to `expected_root` through the
/// given sibling path. A path of any length other than the tree depth fails
/// with `MalformedProof` before any hashing; otherwise the result says
/// exactly whether the recomputed root equals the expected one.
pub fn verify(
    leaf: &[u8; 32],
    index: u32,
    path: &Vec<[u8; 32]>,
    expected_root: &[u8; 32],
    depth: usize,
) -> (r: Result<bool, ClawCashError>)
    ensures
        path@.len() != depth ==> r == Err::<bool, ClawCashError>(ClawCashError::MalformedProof),
        path@.len() == depth ==> r == Ok::<bool, ClawCashError>(
            path_root(leaf@, index as int, views_of(path@)) == expected_root@,
        ),
{
    if path.len() != depth {
        return Err(ClawCashError::MalformedProof);
    }
    let candidate = compute_path_root(leaf, index, path);
    Ok(bytes32_eq(&candidate, expected_root))
}

/// Recomputes the hash of the subtree at `level` and position `pos` from
/// the full leaf history, padding absent slots with the zero leaf.
pub fn compute_node(level: usize, pos: u64, leaves: &Vec<[u8; 32]>) -> (r: [u8; 32])
    requires
        level <= 64,
        pos < pow2((64 - level) as nat),
    ensures
        r@ == node_hash(level as nat, pos as int, views_of(leaves@)),
    decreases level,
{
    if level == 0 {
        if pos < leaves.len() as u64 {
            leaves[pos as usize]
        } else {
            proof {
                assert(leaf_at(views_of(leaves@), pos as int) == crate::hashing::zero_leaf());
            }
            zero_value()
        }
    } else {
        proof {
            lemma_pow2_unfold((64 - level + 1) as nat);
            lemma_pow2_pos((64 - level) as nat);
            assert(pow2(63) == 0x8000000000000000) by {
                lemma2_to64_rest();
            }
            if 64 - level < 63 {
                lemma_pow2_strictly_increases((64 - level) as nat, 63);
            }
        }
        let left = compute_node(level - 1, 2 * pos, leaves);
        let right = compute_node(level - 1, 2 * pos + 1, leaves);
        hash_pair(&left, &right)
    }
}

/// Derives the honest sibling path for the leaf at `index` from the full
/// leaf history of a tree of the given depth.
pub fn compute_sibling_path(leaves: &Vec<[u8; 32]>, index: u32, depth: usize) -> (r: Vec<
    [u8; 32],
>)
    requires
        1 <= depth <= 32,
        (index as int) < pow2(depth as nat),
    ensures
        r@.len() == depth,
        views_of(r@) == sibling_path(views_of(leaves@), index as int, depth as nat),
{
    let ghost goal = sibling_path(views_of(leaves@), index as int, depth as nat);
    let mut path: Vec<[u8; 32]> = Vec::new();
    let mut idx: u64 = index as u64;
    let mut k: usize = 0;
    proof {
        assert(pow2(0) == 1) by {
            lemma2_to64();
        }
        assert(index as int / 1 == index as int);
    }
    while k < depth
        invariant
            k <= depth,
            1 <= depth <= 32,
            (index as int) < pow2(depth as nat),
            idx == index as int / (pow2(k as nat) as int),
            path@.len() == k,
            goal == sibling_path(views_of(leaves@), index as int, depth as nat),
            forall|t: int| 0 <= t < k ==> path@[t]@ == goal[t],
        decreases depth - k,
    {
        proof {
            lemma_pow2_pos(k as nat);
            // The current ancestor position and its sibling lie within the
            // level's width, which is far below the recursion bound.
            assert(idx < pow2((depth - k) as nat)) by {
                lemma_pow2_adds(k as nat, (depth - k) as nat);
                vstd::arithmetic::div_mod::lemma_multiply_divide_lt(
                    index as int,
                    pow2(k as nat) as int,
                    pow2((depth - k) as nat) as int,
                );
            }
            lemma_pow2_strictly_increases((depth - k) as nat, (64 - k) as nat);
        }
        let sib: u64 = if idx % 2 == 0 {
            idx + 1
        } else {
            idx - 1
        };
        proof {
            assert(sib as int == sibling_of(idx as int));
            assert(sib <= pow2((depth - k) as nat));
            assert(pow2((depth - k) as nat) < pow2((64 - k) as nat));
        }
        let node = compute_node(k, sib, leaves);
        path.push(node);
        proof {
            assert(goal[k as int] == node_hash(
                k as nat,
                sibling_of(index as int / (pow2(k as nat) as int)),
                views_of(leaves@),
            ));
        }
        idx = idx / 2;
        k += 1;
        proof {
            lemma_pow2_unfold(k as nat);
            vstd::arithmetic::div_mod::lemma_div_denominator(
                index as int,
                pow2((k - 1) as nat) as int,
                2,
            );
        }
    }
    proof {
        assert(views_of(path@) =~= goal);
    }
    path
}

/// Round trip: for every leaf appended to a well-formed accumulator, the
/// honest sibling path derived from the leaf history reconciles that leaf,
/// at its index, to the accumulator's current root.
pub proof fn lemma_proof_round_trip(acc: IncrementalMerkleAccumulator, i: int)
    requires
        acc.wf(),
        0 <= i < acc@.len(),
    ensures
        path_root(acc@[i], i, sibling_path(acc@, i, acc.depth_spec())) == acc.root_seq(),
{
    lemma_round_trip(acc.depth_spec(), i, acc@);
    assert(leaf_at(acc@, i) == acc@[i]);
}

} // verus!
