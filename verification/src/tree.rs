//! The mathematical model of the Merkle tree.
//!
//! A pool's tree of depth `d` has `pow2(d)` leaf slots. The first slots hold
//! the appended commitments in insertion order; every other slot holds the
//! all-zero leaf. `node_hash(level, pos, leaves)` is the hash of the subtree
//! at a given level and position over that padded leaf assignment, and
//! `node_hash(depth, 0, leaves)` is the root the accumulator maintains.
//! `path_root` folds a sibling path upward from a leaf exactly as the
//! verifier does, and `sibling_path` is the honest path for a given leaf.

use vstd::prelude::*;
use vstd::arithmetic::power2::*;
use vstd::arithmetic::div_mod::*;

use crate::hashing::{hash_pair_spec, zero_leaf};

verus! {

/// The leaf value at slot `j`: the appended commitment where one exists,
/// the all-zero leaf everywhere else.
pub open spec fn leaf_at(leaves: Seq<Seq<u8>>, j: int) -> Seq<u8> {
    if 0 <= j < leaves.len() {
        leaves[j]
    } else {
        zero_leaf()
    }
}

/// The hash of the subtree at `level` and position `pos`, covering leaf
/// slots `[pos * pow2(level), (pos + 1) * pow2(level))`.
pub open spec fn node_hash(level: nat, pos: int, leaves: Seq<Seq<u8>>) -> Seq<u8>
    decreases level,
{
    if level == 0 {
        leaf_at(leaves, pos)
    } else {
        hash_pair_spec(
            node_hash((level - 1) as nat, 2 * pos, leaves),
            node_hash((level - 1) as nat, 2 * pos + 1, leaves),
        )
    }
}

/// The root of the whole tree of the given depth.
pub open spec fn root_spec(depth: nat, leaves: Seq<Seq<u8>>) -> Seq<u8> {
    node_hash(depth, 0, leaves)
}

/// The hash of a subtree all of whose leaves are the all-zero leaf.
pub open spec fn zero_subtree(level: nat) -> Seq<u8>
    decreases level,
{
    if level == 0 {
        zero_leaf()
    } else {
        hash_pair_spec(zero_subtree((level - 1) as nat), zero_subtree((level - 1) as nat))
    }
}

/// The candidate root recomputed from a starting hash, its position, and a
/// sibling path, combining left or right by the position's parity at each
/// level — exactly the verifier's fold.
pub open spec fn path_root(h: Seq<u8>, pos: int, path: Seq<Seq<u8>>) -> Seq<u8>
    decreases path.len(),
{
    if path.len() == 0 {
        h
    } else {
        let next = if pos % 2 == 0 {
            hash_pair_spec(h, path[0])
        } else {
            hash_pair_spec(path[0], h)
        };
        path_root(next, pos / 2, path.drop_first())
    }
}

/// The position of the sibling of the node at position `pos`.
pub open spec fn sibling_of(pos: int) -> int {
    if pos % 2 == 0 {
        pos + 1
    } else {
        pos - 1
    }
}

/// The honest sibling path for the leaf at `index`, starting at `level`:
/// entry `k` is the sibling, at level `level + k`, of the ancestor of the
/// leaf at that level.
pub open spec fn sibling_path_from(
    leaves: Seq<Seq<u8>>,
    level: nat,
    depth: nat,
    pos: int,
) -> Seq<Seq<u8>> {
    Seq::new(
        (depth - level) as nat,
        |k: int| node_hash((level + k) as nat, sibling_of(pos / (pow2(k as nat) as int)), leaves),
    )
}

/// The honest sibling path for the leaf at `index` in a tree of the
/// given depth.
pub open spec fn sibling_path(leaves: Seq<Seq<u8>>, index: int, depth: nat) -> Seq<Seq<u8>> {
    sibling_path_from(leaves, 0, depth, index)
}

/// A subtree that lies entirely beyond the appended leaves hashes to the
/// zero subtree of its level.
pub proof fn lemma_node_zero(level: nat, pos: int, leaves: Seq<Seq<u8>>)
    requires
        pos >= 0,
        pos * (pow2(level) as int) >= leaves.len(),
    ensures
        node_hash(level, pos, leaves) == zero_subtree(level),
    decreases level,
{
    lemma_pow2_pos(level);
    if level == 0 {
        assert(pow2(0) == 1) by {
            lemma2_to64();
        }
    } else {
        let sub = (level - 1) as nat;
        lemma_pow2_unfold(level);
        assert((2 * pos) * (pow2(sub) as int) == pos * (pow2(level) as int)) by (nonlinear_arith)
            requires
                pow2(level) == 2 * pow2(sub),
        ;
        assert((2 * pos + 1) * (pow2(sub) as int) >= pos * (pow2(level) as int)) by (nonlinear_arith)
            requires
                pow2(level) == 2 * pow2(sub),
                pos >= 0,
                pow2(sub) >= 1,
        ;
        lemma_node_zero(sub, 2 * pos, leaves);
        lemma_node_zero(sub, 2 * pos + 1, leaves);
    }
}

/// A subtree's hash depends only on the leaf slots it covers.
pub proof fn lemma_node_agree(level: nat, pos: int, l1: Seq<Seq<u8>>, l2: Seq<Seq<u8>>)
    requires
        forall|j: int|
            pos * (pow2(level) as int) <= j < (pos + 1) * (pow2(level) as int) ==> leaf_at(
                l1,
                j,
            ) == leaf_at(l2, j),
    ensures
        node_hash(level, pos, l1) == node_hash(level, pos, l2),
    decreases level,
{
    lemma_pow2_pos(level);
    if level == 0 {
        assert(pow2(0) == 1) by {
            lemma2_to64();
        }
        assert(pos * 1 <= pos < (pos + 1) * 1);
    } else {
        let sub = (level - 1) as nat;
        lemma_pow2_unfold(level);
        let p = pow2(sub) as int;
        assert((2 * pos) * p == pos * (2 * p) && (2 * pos + 2) * p == (pos + 1) * (2 * p))
            by (nonlinear_arith);
        assert forall|j: int| (2 * pos) * p <= j < (2 * pos + 1) * p implies leaf_at(l1, j)
            == leaf_at(l2, j) by {
            assert((2 * pos + 1) * p <= (2 * pos + 2) * p) by (nonlinear_arith)
                requires
                    p >= 1,
            ;
        }
        assert forall|j: int| (2 * pos + 1) * p <= j < (2 * pos + 2) * p implies leaf_at(l1, j)
            == leaf_at(l2, j) by {
            assert((2 * pos) * p <= (2 * pos + 1) * p) by (nonlinear_arith)
                requires
                    p >= 1,
            ;
        }
        lemma_node_agree(sub, 2 * pos, l1, l2);
        lemma_node_agree(sub, 2 * pos + 1, l1, l2);
    }
}

/// How quotient and remainder by `d` move when the dividend grows by one:
/// the quotient steps exactly when the remainder was at its maximum.
pub proof fn lemma_incr_div(m: int, d: int)
    requires
        m >= 0,
        d >= 1,
    ensures
        m % d == d - 1 ==> (m + 1) / d == m / d + 1 && (m + 1) % d == 0,
        m % d < d - 1 ==> (m + 1) / d == m / d && (m + 1) % d == m % d + 1,
{
    lemma_fundamental_div_mod(m, d);
    assert(m == d * (m / d) + m % d);
    if m % d == d - 1 {
        assert(m + 1 == (m / d + 1) * d + 0) by (nonlinear_arith)
            requires
                m == d * (m / d) + (d - 1),
        ;
        lemma_fundamental_div_mod_converse(m + 1, d, m / d + 1, 0);
    } else {
        assert(m + 1 == (m / d) * d + (m % d + 1)) by (nonlinear_arith)
            requires
                m == d * (m / d) + m % d,
        ;
        lemma_fundamental_div_mod_converse(m + 1, d, m / d, m % d + 1);
    }
}

/// Folding the honest sibling path upward from any ancestor of a leaf
/// reproduces the tree's root.
pub proof fn lemma_path_root_from(level: nat, depth: nat, pos: int, leaves: Seq<Seq<u8>>)
    requires
        level <= depth,
        0 <= pos < pow2((depth - level) as nat),
    ensures
        path_root(node_hash(level, pos, leaves), pos, sibling_path_from(leaves, level, depth, pos))
            == node_hash(depth, 0, leaves),
    decreases depth - level,
{
    let path = sibling_path_from(leaves, level, depth, pos);
    if level == depth {
        assert(pow2(0) == 1) by {
            lemma2_to64();
        }
        assert(path.len() == 0);
    } else {
        assert(pow2(0) == 1) by {
            lemma2_to64();
        }
        assert(path[0] == node_hash(level, sibling_of(pos / 1), leaves));
        assert(pos / 1 == pos);
        lemma_fundamental_div_mod(pos, 2);
        let q = pos / 2;
        let next = if pos % 2 == 0 {
            hash_pair_spec(node_hash(level, pos, leaves), path[0])
        } else {
            hash_pair_spec(path[0], node_hash(level, pos, leaves))
        };
        if pos % 2 == 0 {
            assert(2 * q == pos);
            assert(next == node_hash((level + 1) as nat, q, leaves));
        } else {
            assert(2 * q + 1 == pos);
            assert(next == node_hash((level + 1) as nat, q, leaves));
        }
        // The rest of the path is the honest path of the parent.
        let rest = sibling_path_from(leaves, (level + 1) as nat, depth, q);
        assert(path.drop_first() =~= rest) by {
            assert forall|k: int| 0 <= k < rest.len() implies path.drop_first()[k] == rest[k] by {
                lemma_pow2_unfold((k + 1) as nat);
                lemma_pow2_pos(k as nat);
                lemma_div_denominator(pos, 2, pow2(k as nat) as int);
                assert(2 * (pow2(k as nat) as int) == pow2((k + 1) as nat) as int);
                assert(pos / (pow2((k + 1) as nat) as int) == q / (pow2(k as nat) as int));
            }
        }
        // The parent's position is within the narrower bound one level up.
        lemma_pow2_unfold((depth - level) as nat);
        assert(q < pow2((depth - (level + 1)) as nat)) by {
            assert(pos < 2 * pow2((depth - level - 1) as nat));
        }
        lemma_path_root_from((level + 1) as nat, depth, q, leaves);
        assert(path_root(node_hash(level, pos, leaves), pos, path) == path_root(
            next,
            q,
            path.drop_first(),
        ));
    }
}

/// Round trip: for any leaf slot of the tree, folding its honest sibling
/// path from the leaf value reproduces the root.
pub proof fn lemma_round_trip(depth: nat, index: int, leaves: Seq<Seq<u8>>)
    requires
        0 <= index < pow2(depth),
    ensures
        path_root(leaf_at(leaves, index), index, sibling_path(leaves, index, depth)) == root_spec(
            depth,
            leaves,
        ),
{
    lemma_path_root_from(0, depth, index, leaves);
}

} // verus!
