use blob_tx::access_list::{AccessList, AccessListItem};
use blob_tx::body::TxEip4844;
use blob_tx::primitives::DATA_GAS_PER_BLOB;
use blob_tx::rlp::error::DecodeError;
use blob_tx::transaction_kind::TransactionKind;

fn sample_body() -> TxEip4844 {
    TxEip4844 {
        chain_id: 1,
        nonce: 7,
        gas_limit: 21000,
        max_fee_per_gas: 30_000_000_000,
        max_priority_fee_per_gas: 1_000_000_000,
        to: TransactionKind::Call([0x22; 20]),
        value: 1_000_000_000_000_000_000,
        access_list: AccessList(vec![
            AccessListItem { address: [0x33; 20], storage_keys: vec![[0x44; 32], [0x55; 32]] },
            AccessListItem { address: [0x66; 20], storage_keys: vec![] },
        ]),
        blob_versioned_hashes: vec![[0x01; 32], [0x02; 32]],
        max_fee_per_blob_gas: 3,
        input: vec![0xde, 0xad, 0xbe, 0xef],
    }
}

fn fields_of(body: &TxEip4844) -> Vec<u8> {
    let mut out = Vec::new();
    body.encode_fields(&mut out);
    out
}

#[test]
fn effective_gas_price_below_cap() {
    let tx = TxEip4844 { max_fee_per_gas: 100, max_priority_fee_per_gas: 10, ..Default::default() };
    assert_eq!(tx.effective_gas_price(Some(95)), 100);
}

#[test]
fn effective_gas_price_without_base_fee_is_the_cap() {
    let tx = TxEip4844 { max_fee_per_gas: 100, max_priority_fee_per_gas: 10, ..Default::default() };
    assert_eq!(tx.effective_gas_price(None), 100);
}

#[test]
fn effective_gas_price_clamps_the_tip() {
    let tx = TxEip4844 { max_fee_per_gas: 100, max_priority_fee_per_gas: 10, ..Default::default() };
    assert_eq!(tx.effective_gas_price(Some(50)), 60);
    assert_eq!(tx.effective_gas_price(Some(89)), 99);
    assert_eq!(tx.effective_gas_price(Some(90)), 100);
    assert_eq!(tx.effective_gas_price(Some(0)), 10);
}

#[test]
fn effective_gas_price_with_base_fee_above_cap() {
    let tx = TxEip4844 { max_fee_per_gas: 100, max_priority_fee_per_gas: 10, ..Default::default() };
    assert_eq!(tx.effective_gas_price(Some(100)), 100);
    assert_eq!(tx.effective_gas_price(Some(500)), 100);
    assert_eq!(tx.effective_gas_price(Some(u64::MAX)), 100);
}

#[test]
fn effective_gas_price_at_the_top_of_the_range() {
    let tx = TxEip4844 {
        max_fee_per_gas: u128::MAX,
        max_priority_fee_per_gas: u128::MAX,
        ..Default::default()
    };
    assert_eq!(tx.effective_gas_price(Some(u64::MAX)), u128::MAX);
    let tx = TxEip4844 {
        max_fee_per_gas: u128::MAX,
        max_priority_fee_per_gas: 5,
        ..Default::default()
    };
    assert_eq!(tx.effective_gas_price(Some(u64::MAX)), 5 + u64::MAX as u128);
}

#[test]
fn blob_gas_of_no_blobs_is_zero() {
    assert_eq!(TxEip4844::default().blob_gas(), 0);
}

#[test]
fn blob_gas_counts_each_blob() {
    assert_eq!(DATA_GAS_PER_BLOB, 131072);
    for n in [1usize, 2, 6, 100] {
        let tx = TxEip4844 { blob_versioned_hashes: vec![[0u8; 32]; n], ..Default::default() };
        assert_eq!(tx.blob_gas(), n as u64 * 131072);
    }
}

#[test]
fn size_of_an_empty_body() {
    let tx = TxEip4844::default();
    assert_eq!(tx.size(), 88 + 21);
}

#[test]
fn size_counts_input_access_list_and_hash_room() {
    let mut hashes: Vec<[u8; 32]> = Vec::with_capacity(4);
    hashes.push([1; 32]);
    let capacity = hashes.capacity();
    assert!(capacity >= 4);
    let tx = TxEip4844 {
        input: vec![0; 10],
        access_list: AccessList(vec![AccessListItem {
            address: [0; 20],
            storage_keys: vec![[0; 32]; 3],
        }]),
        blob_versioned_hashes: hashes,
        ..Default::default()
    };
    assert_eq!(tx.access_list.size(), 20 + 3 * 32 + 48);
    assert_eq!(tx.size(), 88 + 21 + (20 + 3 * 32 + 48) + 10 + capacity * 32);
}

#[test]
fn size_with_a_given_hash_capacity() {
    let tx = TxEip4844 {
        input: vec![0; 10],
        access_list: AccessList(vec![AccessListItem {
            address: [0; 20],
            storage_keys: vec![[0; 32]; 3],
        }]),
        blob_versioned_hashes: vec![[1; 32]],
        ..Default::default()
    };
    assert_eq!(tx.size_with_hash_capacity(0), 88 + 21 + (20 + 3 * 32 + 48) + 10);
    assert_eq!(tx.size_with_hash_capacity(4), 88 + 21 + (20 + 3 * 32 + 48) + 10 + 4 * 32);
    assert_eq!(tx.size_with_hash_capacity(usize::MAX), usize::MAX);
    assert_eq!(tx.size(), tx.size_with_hash_capacity(tx.blob_versioned_hashes.capacity()));
    assert!(tx.size() < usize::MAX);
}

#[test]
fn fields_of_an_empty_body() {
    let out = fields_of(&TxEip4844::default());
    assert_eq!(
        out,
        vec![0x80, 0x80, 0x80, 0x80, 0x80, 0x80, 0x80, 0x80, 0xC0, 0x80, 0xC0]
    );
    assert_eq!(TxEip4844::default().fields_len(), 11);
}

#[test]
fn fields_come_in_the_fixed_order() {
    let body = TxEip4844 {
        chain_id: 1,
        nonce: 2,
        max_priority_fee_per_gas: 3,
        max_fee_per_gas: 4,
        gas_limit: 5,
        to: TransactionKind::Create,
        value: 6,
        input: vec![7],
        access_list: AccessList(vec![]),
        max_fee_per_blob_gas: 8,
        blob_versioned_hashes: vec![],
    };
    assert_eq!(fields_of(&body), vec![1, 2, 3, 4, 5, 0x80, 6, 7, 0xC0, 8, 0xC0]);
}

#[test]
fn fields_len_is_what_encode_fields_writes() {
    let body = sample_body();
    assert_eq!(body.fields_len(), fields_of(&body).len());
}

#[test]
fn body_round_trip() {
    let body = sample_body();
    let mut out = fields_of(&body);
    out.extend_from_slice(&[0xAB, 0xCD]);
    let mut buf: &[u8] = &out;
    assert_eq!(TxEip4844::decode_inner(&mut buf), Ok(body));
    assert_eq!(buf, &[0xAB, 0xCD][..]);
}

#[test]
fn body_round_trip_of_a_contract_creation() {
    let body = TxEip4844 { to: TransactionKind::Create, input: vec![0x60; 300], ..sample_body() };
    let out = fields_of(&body);
    let mut buf: &[u8] = &out;
    assert_eq!(TxEip4844::decode_inner(&mut buf), Ok(body));
    assert!(buf.is_empty());
}

#[test]
fn body_round_trip_at_the_extremes() {
    let body = TxEip4844 {
        chain_id: u64::MAX,
        nonce: u64::MAX,
        gas_limit: u64::MAX,
        max_fee_per_gas: u128::MAX,
        max_priority_fee_per_gas: u128::MAX,
        value: u128::MAX,
        max_fee_per_blob_gas: u128::MAX,
        ..TxEip4844::default()
    };
    let out = fields_of(&body);
    let mut buf: &[u8] = &out;
    assert_eq!(TxEip4844::decode_inner(&mut buf), Ok(body));
}

#[test]
fn body_decode_refuses_truncated_input() {
    let out = fields_of(&sample_body());
    for cut in [0usize, 1, 5, out.len() / 2, out.len() - 1] {
        let mut buf: &[u8] = &out[..cut];
        assert_eq!(TxEip4844::decode_inner(&mut buf), Err(DecodeError::InputTooShort), "{}", cut);
        assert_eq!(buf.len(), cut);
    }
}

#[test]
fn body_decode_refuses_malformed_fields() {
    let mut out = fields_of(&TxEip4844::default());
    out[0] = 0xC0;
    let mut buf: &[u8] = &out;
    assert_eq!(TxEip4844::decode_inner(&mut buf), Err(DecodeError::UnexpectedList));
    let mut out = fields_of(&TxEip4844::default());
    out[8] = 0x80;
    let mut buf: &[u8] = &out;
    assert_eq!(TxEip4844::decode_inner(&mut buf), Err(DecodeError::UnexpectedString));
    let mut out = fields_of(&TxEip4844::default());
    out[5] = 0x81;
    let mut buf: &[u8] = &out;
    assert_eq!(TxEip4844::decode_inner(&mut buf), Err(DecodeError::UnexpectedLength));
    let mut nine = vec![0x89];
    nine.extend_from_slice(&[1u8; 9]);
    let mut buf: &[u8] = &nine;
    assert_eq!(TxEip4844::decode_inner(&mut buf), Err(DecodeError::Overflow));
}

#[test]
fn recipient_encodings() {
    let mut out = Vec::new();
    TransactionKind::Create.encode(&mut out);
    assert_eq!(out, vec![0x80]);
    assert_eq!(TransactionKind::Create.length(), 1);
    let call = TransactionKind::Call([0x11; 20]);
    let mut out = Vec::new();
    call.encode(&mut out);
    assert_eq!(out.len(), 21);
    assert_eq!(out[0], 0x94);
    assert_eq!(call.length(), 21);
    assert_eq!(call.size(), 21);
    let mut buf: &[u8] = &out;
    assert_eq!(TransactionKind::decode(&mut buf), Ok(call));
    let mut buf: &[u8] = &[0x80, 0x01];
    assert_eq!(TransactionKind::decode(&mut buf), Ok(TransactionKind::Create));
    assert_eq!(buf, &[0x01][..]);
    let mut buf: &[u8] = &[];
    assert_eq!(TransactionKind::decode(&mut buf), Err(DecodeError::InputTooShort));
}

#[test]
fn access_list_known_encoding() {
    let list = AccessList(vec![AccessListItem { address: [0x01; 20], storage_keys: vec![[0x02; 32]] }]);
    let mut out = Vec::new();
    list.encode(&mut out);
    let mut expected = vec![0xF8, 0x38, 0xF7, 0x94];
    expected.extend_from_slice(&[0x01; 20]);
    expected.extend_from_slice(&[0xE1, 0xA0]);
    expected.extend_from_slice(&[0x02; 32]);
    assert_eq!(out, expected);
    assert_eq!(list.length(), out.len());
    let mut buf: &[u8] = &out;
    assert_eq!(AccessList::decode(&mut buf), Ok(list));
    assert!(buf.is_empty());
}

#[test]
fn access_list_entry_must_fill_its_list() {
    let mut input = vec![0xD7, 0x94];
    input.extend_from_slice(&[0x01; 20]);
    input.extend_from_slice(&[0xC0, 0x05]);
    let mut buf: &[u8] = &input;
    assert_eq!(
        AccessListItem::decode(&mut buf),
        Err(DecodeError::ListLengthMismatch { expected: 23, got: 22 })
    );
    assert_eq!(buf.len(), input.len());
}
