//! The two hash functions of blob transactions, and the versioned hash that
//! stands for a commitment.

use crate::primitives::{Bytes48, H256, VERSIONED_HASH_VERSION_KZG};
use vstd::prelude::*;

verus! {

/// The Keccak-256 digest of `data`, as `tiny_keccak` computes it.
pub uninterp spec fn keccak256_digest(data: Seq<u8>) -> Seq<u8>;

/// The SHA-256 digest of `data`, as `sha2` computes it.
pub uninterp spec fn sha256_digest(data: Seq<u8>) -> Seq<u8>;

/// The Keccak-256 digest of `data`.
///
/// Runs a `tiny_keccak::Keccak` of 256 bits over `data`: `v256`, one
/// `update`, `finalize` into 32 bytes. The claim is only that the digest is
/// the one that belongs to these bytes; nothing is said of its value.
#[verifier::external_body]
pub(crate) fn keccak256(data: &[u8]) -> (digest: H256)
    ensures
        digest@ == keccak256_digest(data@),
{
    let mut hasher = tiny_keccak::Keccak::v256();
    tiny_keccak::Hasher::update(&mut hasher, data);
    let mut digest = [0u8; 32];
    tiny_keccak::Hasher::finalize(hasher, &mut digest);
    digest
}

/// The SHA-256 digest of `data`.
///
/// Calls `sha2::Sha256::digest`. The claim is only that the digest is the one
/// that belongs to these bytes; nothing is said of its value.
#[verifier::external_body]
pub(crate) fn sha256(data: &[u8]) -> (digest: H256)
    ensures
        digest@ == sha256_digest(data@),
{
    <sha2::Sha256 as sha2::Digest>::digest(data).into()
}

/// The versioned hash of a commitment: its SHA-256 digest with the first byte
/// replaced by the version marker.
pub open spec fn versioned_hash(commitment: Seq<u8>) -> Seq<u8> {
    sha256_digest(commitment).update(0, VERSIONED_HASH_VERSION_KZG)
}

/// The versioned hash by which a transaction refers to the blob behind
/// `commitment`.
pub fn kzg_to_versioned_hash(commitment: &Bytes48) -> (hash: H256)
    ensures
        hash@ == versioned_hash(commitment@),
        hash@[0] == VERSIONED_HASH_VERSION_KZG,
        forall|i: int| 1 <= i < 32 ==> hash@[i] == sha256_digest(commitment@)[i],
{
    let mut hash: H256 = sha256(commitment.as_slice());
    hash[0] = VERSIONED_HASH_VERSION_KZG;
    assert(hash@ =~= versioned_hash(commitment@));
    hash
}

} // verus!
