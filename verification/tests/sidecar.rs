use blob_tx::primitives::{BYTES_PER_BLOB, BYTES_PER_COMMITMENT, BYTES_PER_PROOF};
use blob_tx::rlp::error::DecodeError;
use blob_tx::sidecar::BlobTransactionSidecar;

fn sample_sidecar(blobs: usize) -> BlobTransactionSidecar {
    BlobTransactionSidecar {
        blobs: (0..blobs).map(|i| [i as u8 + 1; 131072]).collect(),
        commitments: (0..blobs).map(|i| [i as u8 + 0x10; 48]).collect(),
        proofs: (0..blobs).map(|i| [i as u8 + 0x20; 48]).collect(),
    }
}

fn fields_of(sidecar: &BlobTransactionSidecar) -> Vec<u8> {
    let mut out = Vec::new();
    sidecar.encode_inner(&mut out);
    out
}

#[test]
fn widths_are_those_of_the_commitment_scheme() {
    assert_eq!(BYTES_PER_BLOB, 131072);
    assert_eq!(BYTES_PER_COMMITMENT, 48);
    assert_eq!(BYTES_PER_PROOF, 48);
    assert_eq!(BYTES_PER_BLOB, c_kzg::BYTES_PER_BLOB);
    assert_eq!(BYTES_PER_COMMITMENT, c_kzg::BYTES_PER_COMMITMENT);
    assert_eq!(BYTES_PER_PROOF, c_kzg::BYTES_PER_PROOF);
}

#[test]
fn empty_sidecar_is_three_empty_lists() {
    let sidecar = BlobTransactionSidecar::default();
    assert_eq!(fields_of(&sidecar), vec![0xC0, 0xC0, 0xC0]);
    assert_eq!(sidecar.fields_len(), 3);
    assert_eq!(sidecar.size(), 0);
}

#[test]
fn sidecar_fields_are_siblings_in_order() {
    let sidecar = sample_sidecar(1);
    let out = fields_of(&sidecar);
    let blob_item = 4 + 131072;
    assert_eq!(&out[..4], &[0xFA, 0x02, 0x00, 0x04]);
    assert_eq!(&out[4..8], &[0xBA, 0x02, 0x00, 0x00]);
    assert_eq!(out[8], 1);
    let commitments_at = 4 + blob_item;
    assert_eq!(&out[commitments_at..commitments_at + 2], &[0xF1, 0xB0]);
    assert_eq!(out[commitments_at + 2], 0x10);
    let proofs_at = commitments_at + 50;
    assert_eq!(&out[proofs_at..proofs_at + 2], &[0xF1, 0xB0]);
    assert_eq!(out[proofs_at + 2], 0x20);
    assert_eq!(out.len(), proofs_at + 50);
}

#[test]
fn sidecar_fields_len_is_what_encode_writes() {
    for blobs in [0usize, 1, 2] {
        let sidecar = sample_sidecar(blobs);
        assert_eq!(sidecar.fields_len(), fields_of(&sidecar).len());
    }
}

#[test]
fn sidecar_round_trip() {
    let sidecar = sample_sidecar(2);
    let mut out = fields_of(&sidecar);
    out.push(0x99);
    let mut buf: &[u8] = &out;
    assert_eq!(BlobTransactionSidecar::decode_inner(&mut buf), Ok(sidecar));
    assert_eq!(buf, &[0x99][..]);
}

#[test]
fn sidecar_round_trip_with_uneven_lists() {
    let sidecar = BlobTransactionSidecar {
        blobs: vec![],
        commitments: vec![[1; 48], [2; 48]],
        proofs: vec![[3; 48]],
    };
    let out = fields_of(&sidecar);
    let mut buf: &[u8] = &out;
    assert_eq!(BlobTransactionSidecar::decode_inner(&mut buf), Ok(sidecar));
}

#[test]
fn sidecar_decode_refusals() {
    let mut buf: &[u8] = &[0xC0, 0xC0];
    assert_eq!(BlobTransactionSidecar::decode_inner(&mut buf), Err(DecodeError::InputTooShort));
    assert_eq!(buf.len(), 2);
    let mut buf: &[u8] = &[0xC0, 0x80, 0xC0];
    assert_eq!(BlobTransactionSidecar::decode_inner(&mut buf), Err(DecodeError::UnexpectedString));
    let mut input = vec![0xC0, 0xE1, 0xA0];
    input.extend_from_slice(&[0u8; 32]);
    input.push(0xC0);
    let mut buf: &[u8] = &input;
    assert_eq!(BlobTransactionSidecar::decode_inner(&mut buf), Err(DecodeError::UnexpectedLength));
}

#[test]
fn sidecar_size_is_widths_times_counts() {
    assert_eq!(sample_sidecar(1).size(), 131072 + 48 + 48);
    assert_eq!(sample_sidecar(3).size(), 3 * (131072 + 48 + 48));
    let uneven = BlobTransactionSidecar {
        blobs: vec![],
        commitments: vec![[1; 48], [2; 48]],
        proofs: vec![[3; 48]],
    };
    assert_eq!(uneven.size(), 3 * 48);
}
