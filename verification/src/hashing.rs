//! The hash primitive and the commitment scheme derived from it.
//!
//! Every node of the Merkle tree, every commitment and every nullifier hash
//! is a 32-byte digest produced by a single two-input or one-input SHA-256
//! call. The digest of a byte string is named by the uninterpreted function
//! `sha256_of`; all contracts in the crate are stated over that name.

use vstd::prelude::*;

verus! {

/// The SHA-256 digest of a byte string. The result of the hash primitive
/// depends on the input bytes alone; nothing further is assumed of it.
pub uninterp spec fn sha256_of(input: Seq<u8>) -> Seq<u8>;

/// Relies on anchor_lang::solana_program::hash::hash: the SHA-256 digest of
/// the input bytes, a pure function of the input alone, 32 bytes wide.
#[verifier::external_body]
fn sha256(data: &[u8]) -> (r: [u8; 32])
    ensures
        r@ == sha256_of(data@),
{
    anchor_lang::solana_program::hash::hash(data).to_bytes()
}

/// The 32-byte all-zero value used for empty Merkle tree leaves.
pub open spec fn zero_leaf() -> Seq<u8> {
    Seq::new(32, |i: int| 0u8)
}

/// The digest of two 32-byte nodes hashed as a single 64-byte input.
pub open spec fn hash_pair_spec(left: Seq<u8>, right: Seq<u8>) -> Seq<u8> {
    sha256_of(left + right)
}

/// The commitment bound to a note: the digest of secret and
/// nullifier preimage concatenated.
pub open spec fn commitment_spec(secret: Seq<u8>, preimage: Seq<u8>) -> Seq<u8> {
    sha256_of(secret + preimage)
}

/// The nullifier hash revealed at withdrawal: the digest of the preimage.
pub open spec fn nullifier_spec(preimage: Seq<u8>) -> Seq<u8> {
    sha256_of(preimage)
}

/// The all-zero value standing for an empty leaf.
pub fn zero_value() -> (r: [u8; 32])
    ensures
        r@ == zero_leaf(),
{
    let r = [0u8; 32];
    proof {
        assert(r@ =~= zero_leaf());
    }
    r
}

/// Copies two 32-byte values into one 64-byte buffer.
fn concat32(a: &[u8; 32], b: &[u8; 32]) -> (v: Vec<u8>)
    ensures
        v@ == a@ + b@,
{
    let mut v: Vec<u8> = Vec::new();
    let mut i: usize = 0;
    while i < 32
        invariant
            i <= 32,
            v@ =~= a@.subrange(0, i as int),
        decreases 32 - i,
    {
        v.push(a[i]);
        i += 1;
    }
    let mut j: usize = 0;
    while j < 32
        invariant
            j <= 32,
            v@ =~= a@ + b@.subrange(0, j as int),
        decreases 32 - j,
    {
        v.push(b[j]);
        j += 1;
    }
    proof {
        assert(v@ =~= a@ + b@);
    }
    v
}

/// Hashes two 32-byte nodes together for the Merkle tree, left first.
pub fn hash_pair(left: &[u8; 32], right: &[u8; 32]) -> (r: [u8; 32])
    ensures
        r@ == hash_pair_spec(left@, right@),
{
    let data = concat32(left, right);
    sha256(data.as_slice())
}

/// Derives the commitment of a note: the digest of
/// `secret || nullifier_preimage`.
pub fn compute_commitment(secret: &[u8; 32], nullifier_preimage: &[u8; 32]) -> (r: [u8; 32])
    ensures
        r@ == commitment_spec(secret@, nullifier_preimage@),
{
    let data = concat32(secret, nullifier_preimage);
    sha256(data.as_slice())
}

/// Derives the nullifier hash of a note: the digest of the preimage alone.
pub fn compute_nullifier(nullifier_preimage: &[u8; 32]) -> (r: [u8; 32])
    ensures
        r@ == nullifier_spec(nullifier_preimage@),
{
    sha256(nullifier_preimage.as_slice())
}

/// Compares two 32-byte values for equality.
pub fn bytes32_eq(a: &[u8; 32], b: &[u8; 32]) -> (r: bool)
    ensures
        r <==> a@ == b@,
{
    let mut i: usize = 0;
    while i < 32
        invariant
            i <= 32,
            forall|k: int| 0 <= k < i ==> a@[k] == b@[k],
        decreases 32 - i,
    {
        if a[i] != b[i] {
            return false;
        }
        i += 1;
    }
    proof {
        assert(a@ =~= b@);
    }
    true
}

} // verus!
