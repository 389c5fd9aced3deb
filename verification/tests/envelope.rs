use blob_tx::access_list::{AccessList, AccessListItem};
use blob_tx::blob_transaction::BlobTransaction;
use blob_tx::body::TxEip4844;
use blob_tx::rlp::error::DecodeError;
use blob_tx::rlp::header::Header;
use blob_tx::sidecar::BlobTransactionSidecar;
use blob_tx::signature::{Signature, U256};
use blob_tx::signed::TransactionSigned;
use blob_tx::transaction::{Transaction, TxEip1559, TxEip2930, TxLegacy, TxType};
use blob_tx::transaction_kind::TransactionKind;

fn number(low: u64) -> U256 {
    let mut be_bytes = [0u8; 32];
    be_bytes[24..].copy_from_slice(&low.to_be_bytes());
    U256 { be_bytes }
}

fn sample_body() -> TxEip4844 {
    TxEip4844 {
        chain_id: 1,
        nonce: 7,
        gas_limit: 21000,
        max_fee_per_gas: 30_000_000_000,
        max_priority_fee_per_gas: 1_000_000_000,
        to: TransactionKind::Call([0x22; 20]),
        value: 12345,
        access_list: AccessList(vec![AccessListItem {
            address: [0x33; 20],
            storage_keys: vec![[0x44; 32]],
        }]),
        blob_versioned_hashes: vec![[0x01; 32]],
        max_fee_per_blob_gas: 3,
        input: vec![0xde, 0xad, 0xbe, 0xef],
    }
}

fn sample_signature() -> Signature {
    Signature { r: U256 { be_bytes: [0xAB; 32] }, s: number(0x1234_5678), odd_y_parity: true }
}

fn sample_sidecar(blobs: usize) -> BlobTransactionSidecar {
    BlobTransactionSidecar {
        blobs: (0..blobs).map(|i| [i as u8 + 1; 131072]).collect(),
        commitments: (0..blobs).map(|i| [i as u8 + 0x10; 48]).collect(),
        proofs: (0..blobs).map(|i| [i as u8 + 0x20; 48]).collect(),
    }
}

fn sample_envelope(blobs: usize) -> BlobTransaction {
    BlobTransaction {
        transaction: TransactionSigned::from_blob_body(sample_body(), sample_signature()),
        sidecar: sample_sidecar(blobs),
    }
}

fn keccak(data: &[u8]) -> [u8; 32] {
    let mut hasher = tiny_keccak::Keccak::v256();
    tiny_keccak::Hasher::update(&mut hasher, data);
    let mut out = [0u8; 32];
    tiny_keccak::Hasher::finalize(hasher, &mut out);
    out
}

fn canonical_of(body: &TxEip4844, signature: &Signature) -> Vec<u8> {
    let mut out = Vec::new();
    body.encode_with_signature(signature, &mut out);
    out
}

#[test]
fn u256_encodes_without_leading_zeros() {
    let mut out = Vec::new();
    number(0).encode(&mut out);
    number(1).encode(&mut out);
    number(0x80).encode(&mut out);
    number(0x0102).encode(&mut out);
    assert_eq!(out, vec![0x80, 0x01, 0x81, 0x80, 0x82, 0x01, 0x02]);
    assert_eq!(number(0).length(), 1);
    assert_eq!(number(0x0102).length(), 3);
    let full = U256 { be_bytes: [0xff; 32] };
    assert_eq!(full.length(), 33);
    let mut out = Vec::new();
    full.encode(&mut out);
    assert_eq!(out[0], 0xA0);
    let mut buf: &[u8] = &out;
    assert_eq!(U256::decode(&mut buf), Ok(full));
}

#[test]
fn u256_decode_pads_on_the_left() {
    let mut buf: &[u8] = &[0x82, 0x01, 0x02, 0x77];
    assert_eq!(U256::decode(&mut buf), Ok(number(0x0102)));
    assert_eq!(buf, &[0x77][..]);
    let mut buf: &[u8] = &[0x80];
    assert_eq!(U256::decode(&mut buf), Ok(number(0)));
    let mut buf: &[u8] = &[0x82, 0x00, 0x02];
    assert_eq!(U256::decode(&mut buf), Err(DecodeError::LeadingZero));
    let mut long = vec![0xA1];
    long.extend_from_slice(&[1u8; 33]);
    let mut buf: &[u8] = &long;
    assert_eq!(U256::decode(&mut buf), Err(DecodeError::Overflow));
}

#[test]
fn signature_round_trip() {
    let signature = sample_signature();
    let mut out = Vec::new();
    signature.encode(&mut out);
    assert_eq!(out.len(), signature.payload_len());
    assert_eq!(out[0], 0x01);
    assert_eq!(out[1], 0xA0);
    let mut buf: &[u8] = &out;
    assert_eq!(Signature::decode(&mut buf), Ok(signature));
    assert!(buf.is_empty());
    let even = Signature { odd_y_parity: false, ..signature };
    let mut out = Vec::new();
    even.encode(&mut out);
    assert_eq!(out[0], 0x80);
}

#[test]
fn canonical_form_is_type_byte_and_signed_list() {
    let body = sample_body();
    let signature = sample_signature();
    let canonical = canonical_of(&body, &signature);
    let mut fields = Vec::new();
    body.encode_fields(&mut fields);
    signature.encode(&mut fields);
    let mut expected = vec![0x03];
    Header { list: true, payload_length: fields.len() }.encode(&mut expected);
    expected.extend_from_slice(&fields);
    assert_eq!(canonical, expected);
}

#[test]
fn hash_is_keccak_of_the_canonical_form() {
    let body = sample_body();
    let signature = sample_signature();
    let expected = keccak(&canonical_of(&body, &signature));
    let signed = TransactionSigned::from_blob_body(body.clone(), signature);
    assert_eq!(signed.hash, expected);
    assert_ne!(signed.hash, [0u8; 32]);
    assert_eq!(signed.transaction, Transaction::Eip4844(body));
    assert_eq!(signed.signature, signature);
}

#[test]
fn keccak_of_an_empty_body_is_not_its_input() {
    let body = TxEip4844::default();
    let signature = Signature::default();
    let signed = TransactionSigned::from_blob_body(body.clone(), signature);
    let canonical = canonical_of(&body, &signature);
    assert_eq!(canonical.len(), 16);
    assert_eq!(signed.hash, keccak(&canonical));
}

#[test]
fn canonical_round_trip() {
    let body = sample_body();
    let signature = sample_signature();
    let mut canonical = canonical_of(&body, &signature);
    canonical.extend_from_slice(&[0xEE; 3]);
    let mut buf: &[u8] = &canonical;
    let decoded = TransactionSigned::decode_enveloped_blob(&mut buf).unwrap();
    assert_eq!(decoded, TransactionSigned::from_blob_body(body, signature));
    assert_eq!(buf, &[0xEE; 3][..]);
}

#[test]
fn canonical_decode_refusals() {
    let canonical = canonical_of(&sample_body(), &sample_signature());
    let mut buf: &[u8] = &[];
    assert_eq!(TransactionSigned::decode_enveloped_blob(&mut buf), Err(DecodeError::InputTooShort));
    let mut other = canonical.clone();
    other[0] = 0x02;
    let mut buf: &[u8] = &other;
    assert_eq!(
        TransactionSigned::decode_enveloped_blob(&mut buf),
        Err(DecodeError::Custom("unsupported typed transaction type"))
    );
    let mut buf: &[u8] = &canonical[..canonical.len() - 1];
    assert_eq!(TransactionSigned::decode_enveloped_blob(&mut buf), Err(DecodeError::InputTooShort));
    let mut buf: &[u8] = &[0x03, 0x80];
    assert_eq!(
        TransactionSigned::decode_enveloped_blob(&mut buf),
        Err(DecodeError::UnexpectedString)
    );
    let mut fields = Vec::new();
    sample_body().encode_fields(&mut fields);
    sample_signature().encode(&mut fields);
    let mut padded = vec![0x03];
    Header { list: true, payload_length: fields.len() + 1 }.encode(&mut padded);
    padded.extend_from_slice(&fields);
    padded.push(0x00);
    let mut buf: &[u8] = &padded;
    assert_eq!(
        TransactionSigned::decode_enveloped_blob(&mut buf),
        Err(DecodeError::ListLengthMismatch { expected: fields.len() + 1, got: fields.len() })
    );
    assert_eq!(buf.len(), padded.len());
}

#[test]
fn pooled_form_is_list_of_signed_list_and_sidecar_lists() {
    let envelope = sample_envelope(1);
    let mut out = Vec::new();
    envelope.encode_inner(&mut out);
    let canonical = canonical_of(&sample_body(), &sample_signature());
    let mut payload = canonical[1..].to_vec();
    envelope.sidecar.encode_inner(&mut payload);
    let mut expected = Vec::new();
    Header { list: true, payload_length: payload.len() }.encode(&mut expected);
    expected.extend_from_slice(&payload);
    assert_eq!(out, expected);
}

#[test]
fn pooled_form_with_type_and_header() {
    let envelope = sample_envelope(1);
    let mut inner = Vec::new();
    envelope.encode_inner(&mut inner);
    let mut bare = Vec::new();
    envelope.encode_with_type_inner(&mut bare, false);
    assert_eq!(bare[0], 0x03);
    assert_eq!(&bare[1..], &inner[..]);
    let mut wrapped = Vec::new();
    envelope.encode_with_type_inner(&mut wrapped, true);
    let mut expected = Vec::new();
    Header { list: false, payload_length: 1 + inner.len() }.encode(&mut expected);
    expected.extend_from_slice(&bare);
    assert_eq!(wrapped, expected);
}

#[test]
fn declared_lengths_are_the_lengths_written() {
    for blobs in [0usize, 1, 2] {
        let envelope = sample_envelope(blobs);
        let mut inner = Vec::new();
        envelope.encode_inner(&mut inner);
        assert_eq!(envelope.payload_len(), inner.len());
        for with_header in [false, true] {
            let mut out = Vec::new();
            envelope.encode_with_type_inner(&mut out, with_header);
            assert_eq!(envelope.payload_len_with_type(with_header), out.len());
        }
    }
}

#[test]
fn declared_lengths_of_an_empty_envelope() {
    let envelope = BlobTransaction {
        transaction: TransactionSigned::from_blob_body(TxEip4844::default(), Signature::default()),
        sidecar: BlobTransactionSidecar::default(),
    };
    let mut out = Vec::new();
    envelope.encode_with_type_inner(&mut out, true);
    let mut expected = vec![0x94, 0x03, 0xD2, 0xCE];
    expected.extend_from_slice(&[0x80; 8]);
    expected.extend_from_slice(&[0xC0, 0x80, 0xC0]);
    expected.extend_from_slice(&[0x80; 3]);
    expected.extend_from_slice(&[0xC0; 3]);
    assert_eq!(out, expected);
    assert_eq!(envelope.payload_len_with_type(true), 21);
    assert_eq!(envelope.payload_len_with_type(false), 20);
    assert_eq!(envelope.payload_len(), 19);
}

#[test]
fn pooled_round_trip() {
    for blobs in [0usize, 1, 2] {
        let envelope = sample_envelope(blobs);
        let mut out = Vec::new();
        envelope.encode_inner(&mut out);
        out.extend_from_slice(&[0x11, 0x22]);
        let mut buf: &[u8] = &out;
        assert_eq!(BlobTransaction::decode_inner(&mut buf), Ok(envelope));
        assert_eq!(buf, &[0x11, 0x22][..]);
    }
}

#[test]
fn decoded_hash_comes_from_the_canonical_form() {
    let envelope = sample_envelope(1);
    let mut out = Vec::new();
    envelope.encode_inner(&mut out);
    let mut buf: &[u8] = &out;
    let decoded = BlobTransaction::decode_inner(&mut buf).unwrap();
    assert_eq!(decoded.transaction.hash, keccak(&canonical_of(&sample_body(), &sample_signature())));
    assert_ne!(decoded.transaction.hash, keccak(&out));
    let mut typed = vec![0x03];
    typed.extend_from_slice(&out);
    assert_ne!(decoded.transaction.hash, keccak(&typed));
}

#[test]
fn hash_does_not_depend_on_the_sidecar() {
    let a = sample_envelope(1);
    let b = BlobTransaction {
        transaction: a.transaction.clone(),
        sidecar: BlobTransactionSidecar {
            blobs: vec![[0x77; 131072], [0x78; 131072]],
            commitments: vec![[0x79; 48]],
            proofs: vec![],
        },
    };
    let mut bytes_a = Vec::new();
    a.encode_inner(&mut bytes_a);
    let mut bytes_b = Vec::new();
    b.encode_inner(&mut bytes_b);
    assert_ne!(bytes_a, bytes_b);
    let mut buf_a: &[u8] = &bytes_a;
    let mut buf_b: &[u8] = &bytes_b;
    let decoded_a = BlobTransaction::decode_inner(&mut buf_a).unwrap();
    let decoded_b = BlobTransaction::decode_inner(&mut buf_b).unwrap();
    assert_eq!(decoded_a.transaction.hash, decoded_b.transaction.hash);
    assert_ne!(decoded_a.sidecar, decoded_b.sidecar);
}

#[test]
fn pooled_decode_wants_two_list_headers() {
    let mut buf: &[u8] = &[0x83, 1, 2, 3];
    assert_eq!(
        BlobTransaction::decode_inner(&mut buf),
        Err(DecodeError::Custom("PooledTransactions blob tx must be encoded as a list"))
    );
    assert_eq!(buf.len(), 4);
    let mut buf: &[u8] = &[0xC4, 0x83, 1, 2, 3];
    assert_eq!(
        BlobTransaction::decode_inner(&mut buf),
        Err(DecodeError::Custom("PooledTransactions inner blob tx must be encoded as a list"))
    );
    assert_eq!(buf.len(), 5);
    let mut buf: &[u8] = &[];
    assert_eq!(BlobTransaction::decode_inner(&mut buf), Err(DecodeError::InputTooShort));
    let mut buf: &[u8] = &[0xC1];
    assert_eq!(BlobTransaction::decode_inner(&mut buf), Err(DecodeError::InputTooShort));
}

#[test]
fn pooled_decode_refuses_truncated_input() {
    let envelope = sample_envelope(1);
    let mut out = Vec::new();
    envelope.encode_inner(&mut out);
    let mut buf: &[u8] = &out[..out.len() - 1];
    assert_eq!(BlobTransaction::decode_inner(&mut buf), Err(DecodeError::InputTooShort));
    assert_eq!(buf.len(), out.len() - 1);
}

#[test]
fn pooled_decode_gives_a_blob_transaction() {
    let envelope = sample_envelope(0);
    let mut out = Vec::new();
    envelope.encode_inner(&mut out);
    let mut buf: &[u8] = &out;
    let decoded = BlobTransaction::decode_inner(&mut buf).unwrap();
    assert_eq!(decoded.transaction.transaction.tx_type(), TxType::EIP4844);
    assert!(matches!(decoded.transaction.transaction, Transaction::Eip4844(_)));
}

#[test]
fn into_parts_hands_out_both_parts() {
    let envelope = sample_envelope(1);
    let (transaction, sidecar) = envelope.clone().into_parts();
    assert_eq!(transaction, envelope.transaction);
    assert_eq!(sidecar, envelope.sidecar);
}

#[test]
fn type_bytes_of_the_kinds() {
    assert_eq!(TxType::Legacy.to_u8(), 0);
    assert_eq!(TxType::EIP2930.to_u8(), 1);
    assert_eq!(TxType::EIP1559.to_u8(), 2);
    assert_eq!(TxType::EIP4844.to_u8(), 3);
}

#[test]
fn fields_of_the_other_kinds() {
    let legacy = Transaction::Legacy(TxLegacy {
        chain_id: Some(1),
        nonce: 1,
        gas_price: 2,
        gas_limit: 3,
        to: TransactionKind::Create,
        value: 4,
        input: vec![5],
    });
    let mut out = Vec::new();
    legacy.encode_fields(&mut out);
    assert_eq!(out, vec![1, 2, 3, 0x80, 4, 5]);
    assert_eq!(legacy.fields_len(), 6);
    assert_eq!(legacy.tx_type(), TxType::Legacy);
    let access = Transaction::Eip2930(TxEip2930 {
        chain_id: 9,
        nonce: 1,
        gas_price: 2,
        gas_limit: 3,
        to: TransactionKind::Create,
        value: 4,
        access_list: AccessList(vec![]),
        input: vec![5],
    });
    let mut out = Vec::new();
    access.encode_fields(&mut out);
    assert_eq!(out, vec![9, 1, 2, 3, 0x80, 4, 5, 0xC0]);
    assert_eq!(access.fields_len(), 8);
    assert_eq!(access.tx_type(), TxType::EIP2930);
    let fee_market = Transaction::Eip1559(TxEip1559 {
        chain_id: 9,
        nonce: 1,
        gas_limit: 3,
        max_fee_per_gas: 7,
        max_priority_fee_per_gas: 6,
        to: TransactionKind::Create,
        value: 4,
        access_list: AccessList(vec![]),
        input: vec![5],
    });
    let mut out = Vec::new();
    fee_market.encode_fields(&mut out);
    assert_eq!(out, vec![9, 1, 6, 7, 3, 0x80, 4, 5, 0xC0]);
    assert_eq!(fee_market.fields_len(), 9);
    assert_eq!(fee_market.tx_type(), TxType::EIP1559);
    assert_eq!(Transaction::default().tx_type(), TxType::Legacy);
}
