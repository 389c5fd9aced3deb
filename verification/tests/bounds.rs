use blob_tx::access_list::{AccessList, AccessListItem};
use blob_tx::blob_transaction::BlobTransaction;
use blob_tx::body::TxEip4844;
use blob_tx::rlp::list::fixed_list_length_bound;
use blob_tx::sidecar::BlobTransactionSidecar;
use blob_tx::signature::{Signature, U256};
use blob_tx::signed::TransactionSigned;
use blob_tx::transaction::{Transaction, TxEip1559, TxEip2930, TxLegacy};
use blob_tx::transaction_kind::TransactionKind;

fn full_body() -> TxEip4844 {
    TxEip4844 {
        chain_id: u64::MAX,
        nonce: u64::MAX,
        gas_limit: u64::MAX,
        max_fee_per_gas: u128::MAX,
        max_priority_fee_per_gas: u128::MAX,
        to: TransactionKind::Call([0xff; 20]),
        value: u128::MAX,
        access_list: AccessList(vec![
            AccessListItem { address: [0xff; 20], storage_keys: vec![[0xff; 32]; 3] },
            AccessListItem { address: [0xff; 20], storage_keys: vec![] },
        ]),
        blob_versioned_hashes: vec![[0xff; 32]; 2],
        max_fee_per_blob_gas: u128::MAX,
        input: vec![0xff; 100],
    }
}

#[test]
fn list_bound_counts_every_item_with_the_longest_header() {
    let items: Vec<[u8; 32]> = vec![[0; 32]; 3];
    assert_eq!(fixed_list_length_bound(&items), Some(9 + 3 * 41));
    let none: Vec<[u8; 32]> = vec![];
    assert_eq!(fixed_list_length_bound(&none), Some(9));
}

#[test]
fn access_list_bound() {
    let body = full_body();
    assert_eq!(body.access_list.length_bound(), Some(9 + (9 + 21 + 9 + 3 * 41) + (9 + 21 + 9)));
    assert!(body.access_list.length() <= body.access_list.length_bound().unwrap());
    assert_eq!(AccessList(vec![]).length_bound(), Some(9));
}

#[test]
fn body_bound_is_above_the_length() {
    let body = full_body();
    let access_list = body.access_list.length_bound().unwrap();
    assert_eq!(
        body.fields_length_bound(),
        Some(7 * 17 + 21 + 9 + 100 + access_list + 9 + 2 * 41)
    );
    assert!(body.fields_len() <= body.fields_length_bound().unwrap());
    assert_eq!(TxEip4844::default().fields_length_bound(), Some(7 * 17 + 21 + 9 + 9 + 9));
}

#[test]
fn bounds_of_the_other_kinds() {
    let legacy = Transaction::Legacy(TxLegacy { input: vec![1; 10], ..Default::default() });
    assert_eq!(legacy.fields_length_bound(), Some(4 * 17 + 21 + 9 + 10));
    let access = Transaction::Eip2930(TxEip2930::default());
    assert_eq!(access.fields_length_bound(), Some(5 * 17 + 21 + 9 + 9));
    let fee_market = Transaction::Eip1559(TxEip1559::default());
    assert_eq!(fee_market.fields_length_bound(), Some(6 * 17 + 21 + 9 + 9));
    let blob = Transaction::Eip4844(full_body());
    assert_eq!(blob.fields_length_bound(), full_body().fields_length_bound());
    for tx in [legacy, access, fee_market, blob] {
        assert!(tx.fields_len() <= tx.fields_length_bound().unwrap());
    }
}

#[test]
fn sidecar_bound_is_above_the_length() {
    let sidecar = BlobTransactionSidecar {
        blobs: vec![[0xff; 131072]; 2],
        commitments: vec![[0xff; 48]; 2],
        proofs: vec![[0xff; 48]],
    };
    assert_eq!(
        sidecar.length_bound(),
        Some((9 + 2 * (131072 + 9)) + (9 + 2 * 57) + (9 + 57))
    );
    assert!(sidecar.fields_len() <= sidecar.length_bound().unwrap());
    assert_eq!(BlobTransactionSidecar::default().length_bound(), Some(27));
}

#[test]
fn envelope_bound_is_above_every_length() {
    let body = full_body();
    let fields = body.fields_length_bound().unwrap();
    let signature =
        Signature { r: U256 { be_bytes: [0xff; 32] }, s: U256 { be_bytes: [0xff; 32] }, odd_y_parity: true };
    let envelope = BlobTransaction {
        transaction: TransactionSigned::from_blob_body(body, signature),
        sidecar: BlobTransactionSidecar {
            blobs: vec![[0xff; 131072]],
            commitments: vec![[0xff; 48]],
            proofs: vec![[0xff; 48]],
        },
    };
    let sidecar = envelope.sidecar.length_bound().unwrap();
    let bound = envelope.length_bound().unwrap();
    assert_eq!(bound, fields + 67 + sidecar + 27 + 1);
    assert!(envelope.payload_len() < bound);
    assert!(envelope.payload_len_with_type(false) <= bound);
    assert!(envelope.payload_len_with_type(true) <= bound);
    assert_eq!(envelope.transaction.signature.payload_len(), 67);
}
