use claw_cash::accumulator::IncrementalMerkleAccumulator;
use claw_cash::errors::ClawCashError;
use claw_cash::hashing::{compute_commitment, compute_nullifier, hash_pair};
use claw_cash::ladder::zero_hashes;
use claw_cash::merkle_proof::{compute_sibling_path, verify};
use claw_cash::nullifier::NullifierLedger;
use claw_cash::pool::Pool;

/// Decodes a 64-character hex string into 32 bytes.
fn hx(s: &str) -> [u8; 32] {
    let bytes = s.as_bytes();
    assert_eq!(bytes.len(), 64);
    let nibble = |c: u8| -> u8 {
        match c {
            b'0'..=b'9' => c - b'0',
            b'a'..=b'f' => c - b'a' + 10,
            _ => panic!("not a hex digit"),
        }
    };
    let mut out = [0u8; 32];
    for i in 0..32 {
        out[i] = (nibble(bytes[2 * i]) << 4) | nibble(bytes[2 * i + 1]);
    }
    out
}

fn byte32(b: u8) -> [u8; 32] {
    [b; 32]
}

/// Fills a fresh pool with the given commitments at sequential indices and
/// returns the commitments appended so far as the leaf history.
fn fill(pool: &mut Pool, commitments: &[[u8; 32]]) -> Vec<[u8; 32]> {
    let mut history = Vec::new();
    for (i, c) in commitments.iter().enumerate() {
        let leaf = pool.deposit(c, pool.pool_id, i as u32).expect("deposit should succeed");
        assert_eq!(leaf.leaf_index, i as u32);
        assert_eq!(leaf.commitment, *c);
        history.push(*c);
    }
    history
}

// SHA-256 of 32 zero bytes.
const SHA256_OF_32_ZEROS: &str = "66687aadf862bd776c8fc18b8e9f8e20089714856ee233b3902a591d0d5f2925";
// SHA-256 of 64 zero bytes.
const SHA256_OF_64_ZEROS: &str = "f5a5fd42d16a20302798ef6ed309979b43003d2320d9f0e8ea9831a92759fb4b";

#[test]
fn nullifier_hash_matches_sha256_vector() {
    let preimage = [0u8; 32];
    assert_eq!(compute_nullifier(&preimage), hx(SHA256_OF_32_ZEROS));
}

#[test]
fn hash_pair_matches_sha256_vector() {
    let z = [0u8; 32];
    assert_eq!(hash_pair(&z, &z), hx(SHA256_OF_64_ZEROS));
}

#[test]
fn commitment_is_hash_of_concatenation() {
    let secret = byte32(1);
    let preimage = byte32(2);
    // The commitment hashes secret || preimage as one 64-byte input, the
    // same combination hash_pair uses.
    assert_eq!(compute_commitment(&secret, &preimage), hash_pair(&secret, &preimage));
    // The order of the two halves matters.
    assert_ne!(compute_commitment(&secret, &preimage), compute_commitment(&preimage, &secret));
    // The nullifier hashes the preimage alone.
    assert_ne!(compute_commitment(&secret, &preimage), compute_nullifier(&preimage));
}

#[test]
fn zero_hashes_fails_only_on_depth_zero() {
    assert!(zero_hashes(0).is_none());
    assert!(zero_hashes(1).is_some());
}

#[test]
fn zero_hashes_ladder_steps() {
    let zh = zero_hashes(3).unwrap();
    assert_eq!(zh.len(), 3);
    let z = [0u8; 32];
    assert_eq!(zh[0], hash_pair(&z, &z));
    assert_eq!(zh[1], hash_pair(&zh[0], &zh[0]));
    assert_eq!(zh[2], hash_pair(&zh[1], &zh[1]));
}

#[test]
fn empty_root_is_top_of_ladder() {
    let acc = IncrementalMerkleAccumulator::new(3);
    let zh = zero_hashes(3).unwrap();
    assert_eq!(acc.current_root, zh[2]);
    assert_eq!(acc.next_index, 0);
    assert_eq!(acc.capacity, 8);
}

#[test]
fn append_determinism_same_sequence_same_root() {
    let commitments: Vec<[u8; 32]> = (0..5u8).map(byte32).collect();
    let mut a = IncrementalMerkleAccumulator::new(4);
    let mut b = IncrementalMerkleAccumulator::new(4);
    for c in &commitments {
        a.append(c).unwrap();
    }
    for c in &commitments {
        b.append(c).unwrap();
    }
    assert_eq!(a.current_root, b.current_root);
    assert_eq!(a.next_index, b.next_index);
}

#[test]
fn capacity_boundary_last_append_succeeds_then_tree_full() {
    let mut acc = IncrementalMerkleAccumulator::new(2);
    for i in 0..4u8 {
        assert_eq!(acc.append(&byte32(i)), Ok(i as u32));
    }
    // The 2^D-th append above was the last; one more fails.
    assert_eq!(acc.append(&byte32(9)), Err(ClawCashError::TreeFull));
    // The failed append changed nothing: the next attempt at the same
    // state fails identically.
    assert_eq!(acc.next_index, 4);
    assert_eq!(acc.append(&byte32(10)), Err(ClawCashError::TreeFull));
}

#[test]
fn append_at_rejects_stale_target_index() {
    let mut acc = IncrementalMerkleAccumulator::new(3);
    assert_eq!(acc.append_at(&byte32(1), 0), Ok(0));
    assert_eq!(acc.append_at(&byte32(2), 0), Err(ClawCashError::IndexMismatch));
    assert_eq!(acc.append_at(&byte32(2), 2), Err(ClawCashError::IndexMismatch));
    assert_eq!(acc.append_at(&byte32(2), 1), Ok(1));
    assert_eq!(acc.next_index, 2);
}

#[test]
fn round_trip_proof_for_every_leaf() {
    let commitments: Vec<[u8; 32]> = (10..16u8).map(byte32).collect();
    let mut acc = IncrementalMerkleAccumulator::new(3);
    let mut history = Vec::new();
    for c in &commitments {
        acc.append(c).unwrap();
        history.push(*c);
    }
    for i in 0..history.len() {
        let path = compute_sibling_path(&history, i as u32, 3);
        assert_eq!(path.len(), 3);
        assert_eq!(
            verify(&history[i], i as u32, &path, &acc.current_root, 3),
            Ok(true),
            "leaf {} must verify against the current root",
            i
        );
    }
}

#[test]
fn tamper_sensitivity_leaf_path_and_index() {
    let commitments: Vec<[u8; 32]> = (1..5u8).map(byte32).collect();
    let mut acc = IncrementalMerkleAccumulator::new(3);
    let mut history = Vec::new();
    for c in &commitments {
        acc.append(c).unwrap();
        history.push(*c);
    }
    let index = 2u32;
    let path = compute_sibling_path(&history, index, 3);
    let root = acc.current_root;
    assert_eq!(verify(&history[2], index, &path, &root, 3), Ok(true));

    // Flipping any single bit of the leaf breaks the proof.
    let mut bad_leaf = history[2];
    bad_leaf[17] ^= 0x01;
    assert_eq!(verify(&bad_leaf, index, &path, &root, 3), Ok(false));

    // Flipping a bit of path[k], for every k, breaks the proof.
    for k in 0..3 {
        let mut bad_path = path.clone();
        bad_path[k][0] ^= 0x80;
        assert_eq!(verify(&history[2], index, &bad_path, &root, 3), Ok(false));
    }

    // Flipping a bit of the index breaks the proof.
    assert_eq!(verify(&history[2], index ^ 1, &path, &root, 3), Ok(false));
    assert_eq!(verify(&history[2], index ^ 4, &path, &root, 3), Ok(false));
}

#[test]
fn malformed_proof_rejected_before_hashing() {
    let acc = IncrementalMerkleAccumulator::new(3);
    let leaf = byte32(1);
    let short_path = vec![byte32(0); 2];
    let long_path = vec![byte32(0); 4];
    assert_eq!(
        verify(&leaf, 0, &short_path, &acc.current_root, 3),
        Err(ClawCashError::MalformedProof)
    );
    assert_eq!(
        verify(&leaf, 0, &long_path, &acc.current_root, 3),
        Err(ClawCashError::MalformedProof)
    );
}

#[test]
fn nullifier_uniqueness() {
    let mut ledger = NullifierLedger::new();
    let h = byte32(0xaa);
    let g = byte32(0xab);
    assert_eq!(ledger.insert_if_absent(&h), Ok(()));
    // The second insertion of the same value always fails.
    assert_eq!(ledger.insert_if_absent(&h), Err(ClawCashError::AlreadySpent));
    // A different value never collides with it.
    assert_eq!(ledger.insert_if_absent(&g), Ok(()));
    assert_eq!(ledger.insert_if_absent(&g), Err(ClawCashError::AlreadySpent));
    assert_eq!(ledger.insert_if_absent(&h), Err(ClawCashError::AlreadySpent));
}

#[test]
fn pool_new_rejects_unknown_tier() {
    assert!(matches!(Pool::new(3, 20), Err(ClawCashError::InvalidPool)));
    assert!(matches!(Pool::new(255, 20), Err(ClawCashError::InvalidPool)));
}

#[test]
fn pool_denominations() {
    assert_eq!(Pool::new(0, 4).unwrap().denomination, 100_000_000);
    assert_eq!(Pool::new(1, 4).unwrap().denomination, 1_000_000_000);
    assert_eq!(Pool::new(2, 4).unwrap().denomination, 10_000_000_000);
}

#[test]
fn deposit_rejects_wrong_pool_id() {
    let mut pool = Pool::new(1, 3).unwrap();
    let c = byte32(5);
    assert!(matches!(pool.deposit(&c, 0, 0), Err(ClawCashError::InvalidPool)));
    assert_eq!(pool.accumulator.next_index, 0);
}

#[test]
fn index_mismatch_on_stale_concurrent_deposit() {
    let mut pool = Pool::new(0, 3).unwrap();
    fill(&mut pool, &(0..5u8).map(byte32).collect::<Vec<_>>());
    // Two racing depositors both computed next_index = 5; the first wins.
    let winner = byte32(50);
    let loser = byte32(51);
    assert!(pool.deposit(&winner, 0, 5).is_ok());
    // The true index has advanced to 6: the stale attempt must fail, not
    // silently overwrite leaf 5.
    assert!(matches!(pool.deposit(&loser, 0, 5), Err(ClawCashError::IndexMismatch)));
    assert_eq!(pool.accumulator.next_index, 6);
    // Retrying with the fresh index recovers.
    assert!(pool.deposit(&loser, 0, 6).is_ok());
}

#[test]
fn pool_tree_full_after_capacity_deposits() {
    let mut pool = Pool::new(0, 1).unwrap();
    assert!(pool.deposit(&byte32(1), 0, 0).is_ok());
    assert!(pool.deposit(&byte32(2), 0, 1).is_ok());
    assert!(matches!(pool.deposit(&byte32(3), 0, 2), Err(ClawCashError::TreeFull)));
}

#[test]
fn withdraw_proof_mismatch_on_inconsistent_nullifier() {
    let mut pool = Pool::new(0, 3).unwrap();
    let secret = byte32(1);
    let preimage = byte32(2);
    let c = compute_commitment(&secret, &preimage);
    fill(&mut pool, &[c]);
    let path = compute_sibling_path(&vec![c], 0, 3);
    let wrong_hash = byte32(0xff);
    assert!(matches!(
        pool.withdraw(&secret, &preimage, &wrong_hash, 0, &path),
        Err(ClawCashError::ProofMismatch)
    ));
}

#[test]
fn withdraw_invalid_proof_on_wrong_secret() {
    let mut pool = Pool::new(0, 3).unwrap();
    let secret = byte32(1);
    let preimage = byte32(2);
    let c = compute_commitment(&secret, &preimage);
    fill(&mut pool, &[c]);
    let path = compute_sibling_path(&vec![c], 0, 3);
    let nh = compute_nullifier(&preimage);
    let wrong_secret = byte32(9);
    assert!(matches!(
        pool.withdraw(&wrong_secret, &preimage, &nh, 0, &path),
        Err(ClawCashError::InvalidProof)
    ));
}

#[test]
fn end_to_end_deposit_prove_withdraw_once() {
    // Depth 3: capacity 8. Four notes are deposited in order.
    let mut pool = Pool::new(0, 3).unwrap();
    let notes: Vec<([u8; 32], [u8; 32])> =
        (0..4u8).map(|i| (byte32(0x10 + i), byte32(0x20 + i))).collect();
    let commitments: Vec<[u8; 32]> =
        notes.iter().map(|(s, p)| compute_commitment(s, p)).collect();
    let history = fill(&mut pool, &commitments);

    // A sibling path for c1 derived from the history after the 4th append
    // verifies against the root after the 4th append.
    let root = pool.accumulator.current_root;
    let path = compute_sibling_path(&history, 1, 3);
    assert_eq!(verify(&commitments[1], 1, &path, &root, 3), Ok(true));

    // Withdrawing with c1's underlying note succeeds exactly once.
    let (secret, preimage) = notes[1];
    let nh = compute_nullifier(&preimage);
    let auth = pool.withdraw(&secret, &preimage, &nh, 1, &path).expect("first withdrawal");
    assert_eq!(auth.pool_id, 0);
    assert_eq!(auth.amount, 100_000_000);
    assert_eq!(auth.nullifier_hash, nh);

    // A second attempt with the same preimage fails as a double spend.
    assert!(matches!(
        pool.withdraw(&secret, &preimage, &nh, 1, &path),
        Err(ClawCashError::AlreadySpent)
    ));
}

#[test]
fn withdraw_requires_current_root() {
    // A proof computed against an older root is rejected after a later
    // deposit has moved the root forward.
    let mut pool = Pool::new(2, 3).unwrap();
    let secret = byte32(7);
    let preimage = byte32(8);
    let c = compute_commitment(&secret, &preimage);
    let mut history = fill(&mut pool, &[c]);
    let stale_path = compute_sibling_path(&history, 0, 3);
    let nh = compute_nullifier(&preimage);

    let later = byte32(0x77);
    pool.deposit(&later, 2, 1).unwrap();
    history.push(later);

    assert!(matches!(
        pool.withdraw(&secret, &preimage, &nh, 0, &stale_path),
        Err(ClawCashError::InvalidProof)
    ));

    // Recomputing the path against the full history recovers.
    let fresh_path = compute_sibling_path(&history, 0, 3);
    assert!(pool.withdraw(&secret, &preimage, &nh, 0, &fresh_path).is_ok());
}
