//! The commitment scheme behind blobs: its trusted setup, its errors, and the
//! batch verification of blobs against their commitments and proofs.

use crate::primitives::{Blob, Bytes48};
use crate::rlp::list::views;
use vstd::prelude::*;

verus! {

/// The parameters of the trusted setup, as `c_kzg` holds them.
#[verifier::external_type_specification]
#[verifier::external_body]
pub struct ExKzgSettings(c_kzg::KzgSettings);

/// An error of `c_kzg`.
#[verifier::external_type_specification]
#[verifier::external_body]
pub struct ExCKzgError(c_kzg::Error);

/// Why the commitment scheme could not give an answer.
#[derive(Debug)]
pub enum KzgError {
    /// Two lists that belong together item by item differ in length: the
    /// transaction declares `versioned_hashes` hashes, the sidecar holds
    /// `commitments` commitments.
    MismatchLength { versioned_hashes: usize, commitments: usize },
    /// The commitment library itself reported an error.
    Library(c_kzg::Error),
}

/// What `c_kzg` answers when it verifies `blobs` against `commitments` and
/// `proofs` in one batch under the trusted setup `settings`: its verdict, or
/// its error.
pub uninterp spec fn batch_verdict(
    settings: c_kzg::KzgSettings,
    blobs: Seq<Seq<u8>>,
    commitments: Seq<Seq<u8>>,
    proofs: Seq<Seq<u8>>,
) -> Result<bool, c_kzg::Error>;

/// Verifies all blobs against their commitments and proofs in one batch,
/// under the trusted setup `settings`.
///
/// Calls `c_kzg::KzgSettings::verify_blob_kzg_proof_batch` on copies of the
/// three lists in the library's types. Two claims are made. The answer is
/// the one that belongs to the setup and the three lists: the verification
/// draws its challenges from a hash of its inputs, so it answers the same
/// for the same inputs. And, as the function's first lines show, where the
/// lists differ in length an error comes back. Which verdict or error
/// belongs to given inputs is not stated.
#[verifier::external_body]
pub(crate) fn verify_blob_kzg_proof_batch(
    settings: &c_kzg::KzgSettings,
    blobs: &Vec<Blob>,
    commitments: &Vec<Bytes48>,
    proofs: &Vec<Bytes48>,
) -> (r: Result<bool, c_kzg::Error>)
    ensures
        r == batch_verdict(*settings, views(blobs@), views(commitments@), views(proofs@)),
        blobs@.len() != commitments@.len() || blobs@.len() != proofs@.len() ==> r is Err,
{
    let blobs: Vec<c_kzg::Blob> = blobs.iter().map(|b| c_kzg::Blob::new(*b)).collect();
    let commitments: Vec<c_kzg::Bytes48> =
        commitments.iter().map(|c| c_kzg::Bytes48::new(*c)).collect();
    let proofs: Vec<c_kzg::Bytes48> = proofs.iter().map(|p| c_kzg::Bytes48::new(*p)).collect();
    settings.verify_blob_kzg_proof_batch(&blobs, &commitments, &proofs)
}

} // verus!
