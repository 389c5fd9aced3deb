use blob_tx::blob_transaction::{BlobTransaction, BlobTransactionValidationError};
use blob_tx::body::TxEip4844;
use blob_tx::hashing::kzg_to_versioned_hash;
use blob_tx::kzg::KzgError;
use blob_tx::sidecar::BlobTransactionSidecar;
use blob_tx::signature::Signature;
use blob_tx::signed::TransactionSigned;
use blob_tx::transaction::{Transaction, TxEip1559, TxEip2930, TxLegacy, TxType};

fn settings() -> &'static c_kzg::KzgSettings {
    c_kzg::ethereum_kzg_settings(0)
}

fn sample_blob(seed: u8) -> [u8; 131072] {
    let mut blob = [0u8; 131072];
    for element in 0..4096usize {
        blob[element * 32 + 31] = seed.wrapping_add(element as u8);
        blob[element * 32 + 17] = (element >> 8) as u8;
    }
    blob
}

fn commit(blob: &[u8; 131072]) -> ([u8; 48], [u8; 48]) {
    let kzg_blob = c_kzg::Blob::new(*blob);
    let commitment = settings().blob_to_kzg_commitment(&kzg_blob).unwrap().to_bytes();
    let proof = settings().compute_blob_kzg_proof(&kzg_blob, &commitment).unwrap().to_bytes();
    (commitment.into_inner(), proof.into_inner())
}

fn envelope_of(body: TxEip4844, sidecar: BlobTransactionSidecar) -> BlobTransaction {
    BlobTransaction {
        transaction: TransactionSigned::from_blob_body(body, Signature::default()),
        sidecar,
    }
}

fn valid_envelope(blobs: usize) -> BlobTransaction {
    let mut sidecar = BlobTransactionSidecar::default();
    let mut hashes = Vec::new();
    for i in 0..blobs {
        let blob = sample_blob(i as u8 + 1);
        let (commitment, proof) = commit(&blob);
        hashes.push(kzg_to_versioned_hash(&commitment));
        sidecar.blobs.push(blob);
        sidecar.commitments.push(commitment);
        sidecar.proofs.push(proof);
    }
    envelope_of(TxEip4844 { blob_versioned_hashes: hashes, ..Default::default() }, sidecar)
}

fn unverifiable_envelope(blobs: usize) -> BlobTransaction {
    let commitments: Vec<[u8; 48]> = (0..blobs).map(|i| [i as u8 + 0x10; 48]).collect();
    let hashes = commitments.iter().map(kzg_to_versioned_hash).collect();
    envelope_of(
        TxEip4844 { blob_versioned_hashes: hashes, ..Default::default() },
        BlobTransactionSidecar {
            blobs: (0..blobs).map(|i| sample_blob(i as u8)).collect(),
            commitments,
            proofs: (0..blobs).map(|i| [i as u8 + 0x20; 48]).collect(),
        },
    )
}

#[test]
fn versioned_hash_of_known_commitments() {
    let zeros = kzg_to_versioned_hash(&[0u8; 48]);
    let expected: [u8; 32] = [
        0x01, 0xb0, 0x76, 0x1f, 0x87, 0xb0, 0x81, 0xd5, 0xcf, 0x10, 0x75, 0x7c, 0xcc, 0x89, 0xf1,
        0x2b, 0xe3, 0x55, 0xc7, 0x0e, 0x2e, 0x29, 0xdf, 0x28, 0x8b, 0x65, 0xb3, 0x07, 0x10, 0xdc,
        0xbc, 0xd1,
    ];
    assert_eq!(zeros, expected);
    let ones = kzg_to_versioned_hash(&[1u8; 48]);
    let expected: [u8; 32] = [
        0x01, 0xf9, 0x04, 0x35, 0xcd, 0x45, 0xd0, 0x47, 0x5c, 0xbb, 0x0a, 0xce, 0x7e, 0x7e, 0x3a,
        0x67, 0x2e, 0xd2, 0xa3, 0xa4, 0x98, 0x4a, 0xd3, 0xe8, 0x62, 0x4d, 0x88, 0x78, 0x72, 0x5a,
        0x9c, 0x2e,
    ];
    assert_eq!(ones, expected);
}

#[test]
fn versioned_hash_starts_with_the_version() {
    for seed in 0..20u8 {
        let hash = kzg_to_versioned_hash(&[seed; 48]);
        assert_eq!(hash[0], 0x01);
    }
}

#[test]
fn genuine_proof_is_accepted() {
    let envelope = valid_envelope(1);
    assert!(matches!(envelope.check_versioned_hashes(), Ok(true)));
    assert!(matches!(envelope.validate(settings()), Ok(true)));
}

#[test]
fn genuine_proofs_of_several_blobs_are_accepted() {
    let envelope = valid_envelope(3);
    assert!(matches!(envelope.validate(settings()), Ok(true)));
}

#[test]
fn changed_blob_is_refused_without_error() {
    let mut envelope = valid_envelope(1);
    envelope.sidecar.blobs[0][31] ^= 0x01;
    assert!(matches!(envelope.validate(settings()), Ok(false)));
    let mut envelope = valid_envelope(1);
    envelope.sidecar.blobs[0][131071] ^= 0x80;
    assert!(matches!(envelope.validate(settings()), Ok(false)));
    let mut envelope = valid_envelope(1);
    envelope.sidecar.blobs[0][5000 * 16 + 9] ^= 0x10;
    assert!(matches!(envelope.validate(settings()), Ok(false)));
}

#[test]
fn swapped_proofs_are_refused_without_error() {
    let mut envelope = valid_envelope(2);
    envelope.sidecar.proofs.swap(0, 1);
    assert!(matches!(envelope.validate(settings()), Ok(false)));
}

#[test]
fn no_blobs_check_out() {
    let envelope = valid_envelope(0);
    assert!(matches!(envelope.check_versioned_hashes(), Ok(true)));
    assert!(matches!(envelope.validate(settings()), Ok(true)));
}

#[test]
fn wrong_hash_is_refused_without_error() {
    for blobs in [1usize, 3] {
        for at in 0..blobs {
            let valid = valid_envelope(blobs);
            let mut body = match valid.transaction.transaction {
                Transaction::Eip4844(body) => body,
                _ => unreachable!(),
            };
            body.blob_versioned_hashes[at][7] ^= 0x40;
            let envelope = envelope_of(body, valid.sidecar);
            assert!(matches!(envelope.check_versioned_hashes(), Ok(false)));
            assert!(matches!(envelope.validate(settings()), Ok(false)));
        }
    }
}

#[test]
fn wrong_version_byte_is_refused_without_error() {
    let valid = valid_envelope(1);
    let mut body = match valid.transaction.transaction {
        Transaction::Eip4844(body) => body,
        _ => unreachable!(),
    };
    body.blob_versioned_hashes[0][0] = 0x02;
    let envelope = envelope_of(body, valid.sidecar);
    assert!(matches!(envelope.validate(settings()), Ok(false)));
}

#[test]
fn wrong_hash_is_refused_before_any_proof_is_verified() {
    let mut envelope = unverifiable_envelope(2);
    let mut body = match envelope.transaction.transaction {
        Transaction::Eip4844(body) => body,
        _ => unreachable!(),
    };
    body.blob_versioned_hashes[1] = [0u8; 32];
    envelope.sidecar.blobs.clear();
    let envelope = envelope_of(body, envelope.sidecar);
    assert!(matches!(envelope.validate(settings()), Ok(false)));
}

#[test]
fn missing_commitment_is_a_length_mismatch() {
    let mut envelope = valid_envelope(2);
    envelope.sidecar.commitments.pop();
    let expected_counts = (2usize, 1usize);
    match envelope.validate(settings()) {
        Err(BlobTransactionValidationError::KZGError(KzgError::MismatchLength {
            versioned_hashes,
            commitments,
        })) => assert_eq!((versioned_hashes, commitments), expected_counts),
        other => panic!("{:?}", other),
    }
    match envelope.check_versioned_hashes() {
        Err(BlobTransactionValidationError::KZGError(KzgError::MismatchLength {
            versioned_hashes,
            commitments,
        })) => assert_eq!((versioned_hashes, commitments), expected_counts),
        other => panic!("{:?}", other),
    }
}

#[test]
fn surplus_commitment_is_a_length_mismatch() {
    let mut envelope = valid_envelope(1);
    envelope.sidecar.commitments.push([0u8; 48]);
    assert!(matches!(
        envelope.validate(settings()),
        Err(BlobTransactionValidationError::KZGError(KzgError::MismatchLength {
            versioned_hashes: 1,
            commitments: 2,
        }))
    ));
}

#[test]
fn other_kinds_are_refused_with_their_kind() {
    let sidecar = valid_envelope(1).sidecar;
    let others = vec![
        (Transaction::Legacy(TxLegacy::default()), TxType::Legacy),
        (Transaction::Eip2930(TxEip2930::default()), TxType::EIP2930),
        (Transaction::Eip1559(TxEip1559::default()), TxType::EIP1559),
    ];
    for (transaction, kind) in others {
        let envelope = BlobTransaction {
            transaction: TransactionSigned {
                hash: [0u8; 32],
                signature: Signature::default(),
                transaction,
            },
            sidecar: sidecar.clone(),
        };
        match envelope.validate(settings()) {
            Err(BlobTransactionValidationError::NotBlobTransaction(found)) => {
                assert_eq!(found, kind)
            },
            other => panic!("{:?}", other),
        }
    }
}

#[test]
fn default_envelope_is_no_blob_transaction() {
    let envelope = BlobTransaction::default();
    assert!(matches!(
        envelope.validate(settings()),
        Err(BlobTransactionValidationError::NotBlobTransaction(TxType::Legacy))
    ));
}

#[test]
fn missing_blob_is_an_error_of_the_library() {
    let mut envelope = valid_envelope(2);
    envelope.sidecar.blobs.pop();
    assert!(matches!(
        envelope.validate(settings()),
        Err(BlobTransactionValidationError::KZGError(KzgError::Library(
            c_kzg::Error::MismatchLength(_)
        )))
    ));
    let mut envelope = valid_envelope(2);
    envelope.sidecar.proofs.pop();
    assert!(matches!(
        envelope.validate(settings()),
        Err(BlobTransactionValidationError::KZGError(KzgError::Library(
            c_kzg::Error::MismatchLength(_)
        )))
    ));
}

#[test]
fn malformed_commitment_is_an_error_of_the_library() {
    let envelope = unverifiable_envelope(1);
    assert!(matches!(envelope.check_versioned_hashes(), Ok(true)));
    assert!(matches!(
        envelope.validate(settings()),
        Err(BlobTransactionValidationError::KZGError(KzgError::Library(_)))
    ));
}

#[test]
fn blob_outside_the_field_is_an_error_of_the_library() {
    let mut envelope = valid_envelope(1);
    envelope.sidecar.blobs[0][0] = 0xff;
    assert!(matches!(
        envelope.validate(settings()),
        Err(BlobTransactionValidationError::KZGError(KzgError::Library(_)))
    ));
}

#[test]
fn conclude_passes_the_verdict_on() {
    assert!(matches!(BlobTransaction::conclude(Ok(true)), Ok(true)));
    assert!(matches!(BlobTransaction::conclude(Ok(false)), Ok(false)));
    assert!(matches!(
        BlobTransaction::conclude(Err(c_kzg::Error::InvalidKzgProof("bad".to_string()))),
        Err(BlobTransactionValidationError::KZGError(KzgError::Library(
            c_kzg::Error::InvalidKzgProof(_)
        )))
    ));
}

#[test]
fn validation_error_from_a_kzg_error() {
    let error: BlobTransactionValidationError =
        KzgError::MismatchLength { versioned_hashes: 3, commitments: 2 }.into();
    assert!(matches!(
        error,
        BlobTransactionValidationError::KZGError(KzgError::MismatchLength {
            versioned_hashes: 3,
            commitments: 2,
        })
    ));
}
