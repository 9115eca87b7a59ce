//! The append-only incremental Merkle accumulator.
//!
//! The accumulator keeps, instead of the full tree, only the frontier: for
//! each level, the most recently committed left-hand node whose right
//! sibling is not yet filled. That is exactly the state needed to append a
//! leaf and recompute the root in one pass over the levels.
//!
//! The well-formedness predicate ties the stored root to the mathematical
//! root of the ghost leaf sequence, and each frontier entry to the hash of
//! the subtree it stands for; `append` is proved to maintain both.

use vstd::prelude::*;
use vstd::arithmetic::power2::*;
use vstd::arithmetic::div_mod::*;

use crate::errors::ClawCashError;
use crate::hashing::{hash_pair, zero_value};
use crate::ladder::{pow2_u64, zero_hashes};
use crate::tree::{
    leaf_at, lemma_incr_div, lemma_node_agree, lemma_node_zero, node_hash, root_spec, zero_subtree,
};

verus! {

/// A frontier entry at level `i` is meaningful exactly when the node at
/// level `i` on the path of the next leaf is a right child, that is, when
/// `n / 2^i` is odd; it must then hold the hash of its left sibling.
pub open spec fn frontier_entry_ok(
    leaves: Seq<Seq<u8>>,
    n: int,
    frontier: Seq<[u8; 32]>,
    i: int,
) -> bool {
    let c = n / (pow2(i as nat) as int);
    c % 2 == 1 ==> frontier[i]@ == node_hash(i as nat, c - 1, leaves)
}

pub struct IncrementalMerkleAccumulator {
    /// The tree depth; capacity is `2^depth` leaves.
    pub depth: usize,
    /// `2^depth`, fixed at construction.
    pub capacity: u64,
    /// The index the next appended leaf will receive.
    pub next_index: u64,
    /// The Merkle root over the appended leaves, all other slots zero.
    pub current_root: [u8; 32],
    /// The frontier: one entry per level.
    pub filled_subtrees: Vec<[u8; 32]>,
    /// The zero-hash ladder for this depth, read-only after construction.
    pub zero_ladder: Vec<[u8; 32]>,
    /// The leaves appended so far, in insertion order.
    pub leaves: Ghost<Seq<Seq<u8>>>,
}

impl IncrementalMerkleAccumulator {
    /// The abstract state: the sequence of appended leaf values.
    pub open spec fn view(self) -> Seq<Seq<u8>> {
        self.leaves@
    }

    pub open spec fn depth_spec(self) -> nat {
        self.depth as nat
    }

    /// The stored root, as a byte sequence.
    pub open spec fn root_seq(self) -> Seq<u8> {
        self.current_root@
    }

    pub open spec fn wf(self) -> bool {
        &&& 1 <= self.depth <= 32
        &&& self.capacity == pow2(self.depth as nat)
        &&& self.filled_subtrees@.len() == self.depth
        &&& self.zero_ladder@.len() == self.depth
        &&& (forall|i: int|
            0 <= i < self.depth ==> self.zero_ladder@[i]@ == zero_subtree((i + 1) as nat))
        &&& self.next_index == self.leaves@.len()
        &&& self.next_index <= self.capacity
        &&& self.current_root@ == root_spec(self.depth as nat, self.leaves@)
        &&& (forall|i: int|
            0 <= i < self.depth ==> frontier_entry_ok(
                self.leaves@,
                self.leaves@.len() as int,
                self.filled_subtrees@,
                i,
            ))
    }

    /// Creates an empty accumulator of the given depth, seeded from the
    /// zero-hash ladder.
    pub fn new(depth: usize) -> (r: Self)
        requires
            1 <= depth <= 32,
        ensures
            r.wf(),
            r@ == Seq::<Seq<u8>>::empty(),
            r.depth_spec() == depth,
    {
        let ladder = match zero_hashes(depth) {
            Some(v) => v,
            None => {
                proof {
                    assert(false);
                }
                vstd::pervasive::unreached()
            },
        };
        let capacity = pow2_u64(depth);
        let root = ladder[depth - 1];
        let mut frontier: Vec<[u8; 32]> = Vec::new();
        frontier.push(zero_value());
        let mut i: usize = 1;
        while i < depth
            invariant
                1 <= i <= depth,
                frontier@.len() == i,
                ladder@.len() == depth,
            decreases depth - i,
        {
            frontier.push(ladder[i - 1]);
            i += 1;
        }
        let r = IncrementalMerkleAccumulator {
            depth,
            capacity,
            next_index: 0,
            current_root: root,
            filled_subtrees: frontier,
            zero_ladder: ladder,
            leaves: Ghost(Seq::empty()),
        };
        proof {
            lemma_pow2_pos(depth as nat);
            lemma_node_zero(depth as nat, 0, Seq::empty());
            assert forall|j: int| 0 <= j < depth implies frontier_entry_ok(
                r.leaves@,
                0,
                r.filled_subtrees@,
                j,
            ) by {
                lemma_pow2_pos(j as nat);
                assert(0int / (pow2(j as nat) as int) == 0) by {
                    lemma_basic_div(0int, pow2(j as nat) as int);
                }
            }
        }
        r
    }

    /// Appends a leaf, assigning it the next free index and advancing the
    /// root in one pass over the levels. Fails with `TreeFull`, and changes
    /// nothing, exactly when the accumulator is at capacity.
    pub fn append(&mut self, leaf: &[u8; 32]) -> (r: Result<u32, ClawCashError>)
        requires
            old(self).wf(),
        ensures
            final(self).wf(),
            final(self).depth_spec() == old(self).depth_spec(),
            old(self)@.len() < pow2(old(self).depth_spec()) ==> {
                &&& r == Ok::<u32, ClawCashError>(old(self)@.len() as u32)
                &&& final(self)@ == old(self)@.push(leaf@)
            },
            old(self)@.len() == pow2(old(self).depth_spec()) ==> {
                &&& r == Err::<u32, ClawCashError>(ClawCashError::TreeFull)
                &&& *final(self) == *old(self)
            },
    {
        if self.next_index == self.capacity {
            return Err(ClawCashError::TreeFull);
        }
        let ghost ol = self.leaves@;
        let ghost nl = ol.push(leaf@);
        let ghost m = self.next_index as int;
        let assigned = self.next_index;

        let mut current: [u8; 32] = *leaf;
        let mut idx: u64 = self.next_index;
        let mut i: usize = 0;
        proof {
            assert(pow2(0) == 1) by {
                lemma2_to64();
            }
            assert(m / 1 == m);
            assert(leaf_at(nl, m) == leaf@);
        }
        while i < self.depth
            invariant
                old(self).wf(),
                i <= self.depth,
                self.depth == old(self).depth,
                self.capacity == old(self).capacity,
                self.next_index == old(self).next_index,
                self.zero_ladder == old(self).zero_ladder,
                self.leaves == old(self).leaves,
                self.current_root == old(self).current_root,
                self.filled_subtrees@.len() == self.depth,
                ol == old(self).leaves@,
                nl == ol.push(leaf@),
                m == ol.len(),
                0 <= m < pow2(self.depth as nat),
                idx == m / (pow2(i as nat) as int),
                current@ == node_hash(i as nat, idx as int, nl),
                forall|j: int|
                    i <= j < self.depth ==> self.filled_subtrees@[j] == old(
                        self,
                    ).filled_subtrees@[j],
                forall|j: int|
                    0 <= j < i ==> #[trigger] frontier_entry_ok(nl, m + 1, self.filled_subtrees@, j),
            decreases self.depth - i,
        {
            let ghost p = pow2(i as nat) as int;
            let ghost c = m / p;
            let ghost fs0 = self.filled_subtrees@;
            proof {
                lemma_pow2_pos(i as nat);
                lemma_pow2_unfold((i + 1) as nat);
                lemma_fundamental_div_mod(m, p);
                lemma_incr_div(m, p);
                lemma_div_denominator(m, p, 2);
                assert(m / (pow2((i + 1) as nat) as int) == c / 2);
                lemma_fundamental_div_mod(c, 2);
            }
            if idx % 2 == 0 {
                // Left child: record it in the frontier and pair it with
                // the hash of the still-empty subtree to its right.
                self.filled_subtrees[i] = current;
                let default_right = if i == 0 {
                    zero_value()
                } else {
                    self.zero_ladder[i - 1]
                };
                proof {
                    assert(default_right@ == zero_subtree(i as nat));
                    // The right sibling covers slots at and beyond m + 1.
                    assert((c + 1) * p == c * p + p) by (nonlinear_arith);
                    assert(m < (c + 1) * p);
                    lemma_node_zero(i as nat, c + 1, nl);
                    // The frontier entry just written is correct for the
                    // advanced index.
                    assert(self.filled_subtrees@ == fs0.update(i as int, current));
                    assert(self.filled_subtrees@[i as int]@ == node_hash(i as nat, c, nl));
                    assert forall|j: int| 0 <= j <= i implies #[trigger] frontier_entry_ok(
                        nl,
                        m + 1,
                        self.filled_subtrees@,
                        j,
                    ) by {
                        if j < i {
                            assert(frontier_entry_ok(nl, m + 1, fs0, j));
                            assert(self.filled_subtrees@[j] == fs0[j]);
                        } else {
                            if m % p == p - 1 {
                                assert((m + 1) / p == c + 1);
                            } else {
                                assert((m + 1) / p == c);
                            }
                        }
                    }
                    assert(2 * (c / 2) == c);
                }
                current = hash_pair(&current, &default_right);
            } else {
                // Right child: its left sibling was recorded when that
                // sibling was appended; combine it on the left.
                let left = self.filled_subtrees[i];
                proof {
                    // The stored entry hashes the left sibling subtree over
                    // the old leaves; that subtree covers only slots below
                    // m, so it is unchanged by the new leaf.
                    assert(frontier_entry_ok(ol, m, old(self).filled_subtrees@, i as int));
                    assert(left@ == node_hash(i as nat, c - 1, ol));
                    assert((c - 1) * p == c * p - p) by (nonlinear_arith);
                    assert forall|j: int| (c - 1) * p <= j < c * p implies leaf_at(ol, j)
                        == leaf_at(nl, j) by {
                        assert(c * p <= m);
                    }
                    lemma_node_agree(i as nat, c - 1, ol, nl);
                    assert(2 * (c / 2) + 1 == c);
                    assert forall|j: int| 0 <= j <= i implies #[trigger] frontier_entry_ok(
                        nl,
                        m + 1,
                        self.filled_subtrees@,
                        j,
                    ) by {
                        if j < i {
                            assert(frontier_entry_ok(nl, m + 1, fs0, j));
                        } else {
                            if m % p == p - 1 {
                                assert((m + 1) / p == c + 1);
                            } else {
                                assert((m + 1) / p == c);
                                assert(self.filled_subtrees@[i as int]@ == node_hash(
                                    i as nat,
                                    c - 1,
                                    nl,
                                ));
                            }
                        }
                    }
                }
                current = hash_pair(&left, &current);
            }
            idx = idx / 2;
            i += 1;
        }
        proof {
            lemma_pow2_pos(self.depth as nat);
            lemma_basic_div(m, pow2(self.depth as nat) as int);
            assert(current@ == node_hash(self.depth as nat, 0, nl));
            if self.depth < 32 {
                lemma_pow2_strictly_increases(self.depth as nat, 32);
            }
            assert(pow2(32) == 0x100000000) by {
                lemma2_to64();
            }
        }
        self.current_root = current;
        self.next_index = self.next_index + 1;
        proof {
            self.leaves@ = nl;
        }
        Ok(assigned as u32)
    }

    /// Appends a leaf at a caller-declared target index. Appends are
    /// strictly sequential: the declared index must equal the current next
    /// index, else the operation fails with `IndexMismatch` and changes
    /// nothing — two callers racing for the same slot can never both
    /// succeed. A full accumulator is reported before the index is looked
    /// at.
    pub fn append_at(&mut self, leaf: &[u8; 32], target_index: u32) -> (r: Result<
        u32,
        ClawCashError,
    >)
        requires
            old(self).wf(),
        ensures
            final(self).wf(),
            final(self).depth_spec() == old(self).depth_spec(),
            old(self)@.len() >= pow2(old(self).depth_spec()) ==> {
                &&& r == Err::<u32, ClawCashError>(ClawCashError::TreeFull)
                &&& *final(self) == *old(self)
            },
            old(self)@.len() < pow2(old(self).depth_spec()) && target_index != old(self)@.len()
                ==> {
                &&& r == Err::<u32, ClawCashError>(ClawCashError::IndexMismatch)
                &&& *final(self) == *old(self)
            },
            old(self)@.len() < pow2(old(self).depth_spec()) && target_index == old(self)@.len()
                ==> {
                &&& r == Ok::<u32, ClawCashError>(target_index)
                &&& final(self)@ == old(self)@.push(leaf@)
            },
    {
        if self.next_index == self.capacity {
            return Err(ClawCashError::TreeFull);
        }
        if (target_index as u64) != self.next_index {
            return Err(ClawCashError::IndexMismatch);
        }
        self.append(leaf)
    }

    /// Determinism of the append sequence: two well-formed accumulators of
    /// the same depth holding the same leaf sequence hold the same root,
    /// however and whenever the leaves were appended.
    pub proof fn lemma_append_determinism(
        a: IncrementalMerkleAccumulator,
        b: IncrementalMerkleAccumulator,
    )
        requires
            a.wf(),
            b.wf(),
            a.depth_spec() == b.depth_spec(),
            a@ == b@,
        ensures
            a.root_seq() == b.root_seq(),
    {
    }
}

} // verus!
