//! What holds across encoding, decoding and validation.

use crate::access_list::{
    access_list_bytes, access_list_wf, item_payload, item_wf, items_bytes,
    lemma_items_bytes_prefix, AccessList,
};
use crate::blob_transaction::{
    hashes_match, parse_envelope, parse_envelope_fields, BlobTransactionValidationError,
    BlobTransactionView,
};
use crate::body::{
    body_wf, fields_bytes, lemma_parse_fields_bytes, parse_fields, TxEip4844, TxEip4844View,
};
use crate::hashing::versioned_hash;
use crate::kzg::{batch_verdict, KzgError};
use crate::rlp::concat::{lemma_join_assoc, lemma_split_joined};
use crate::rlp::error::DecodeError;
use crate::rlp::header::{
    header_bytes, lemma_header_bytes_len, lemma_parse_header_bytes, parse_header, Header,
};
use crate::rlp::list::str_items_bytes;
use crate::sidecar::{
    lemma_parse_sidecar_bytes, parse_sidecar, BlobTransactionSidecar, BlobTransactionSidecarView,
};
use crate::signature::{
    lemma_parse_signature_bytes, lemma_signature_injective, lemma_signature_is_wf,
    parse_signature, signature_bytes, Signature, SignatureView,
};
use crate::signed::{
    blob_tx_hash, canonical_bytes, lemma_parse_canonical_bytes, parse_canonical,
    TransactionSignedView,
};
use crate::transaction::{TransactionView, TxType};
use vstd::prelude::*;

verus! {

/// An access list whose encoding has a length that a machine word holds is
/// well formed.
pub proof fn lemma_access_list_is_wf(list: AccessList)
    requires
        access_list_bytes(list@).len() <= usize::MAX,
    ensures
        access_list_wf(list@),
{
    let items = list@;
    lemma_header_bytes_len(true, items_bytes(items).len());
    assert forall|i: int| 0 <= i < items.len() implies item_wf(#[trigger] items[i]) by {
        let item = list.0@[i];
        assert(items[i] == item@);
        lemma_items_bytes_prefix(items, i);
        lemma_header_bytes_len(true, item_payload(items[i]).len());
        lemma_header_bytes_len(true, str_items_bytes(items[i].storage_keys).len());
        assert forall|j: int| 0 <= j < items[i].storage_keys.len() implies (
        #[trigger] items[i].storage_keys[j]).len() == 32 by {
            assert(items[i].storage_keys[j] == item.storage_keys@[j]@);
        }
    }
}

/// A body whose encoded fields have a length that a machine word holds is
/// well formed.
pub proof fn lemma_body_is_wf(body: TxEip4844)
    requires
        fields_bytes(body@).len() <= usize::MAX,
    ensures
        body_wf(body@),
{
    lemma_access_list_is_wf(body.access_list);
    lemma_header_bytes_len(true, str_items_bytes(body@.blob_versioned_hashes).len());
    assert forall|i: int| 0 <= i < body@.blob_versioned_hashes.len() implies (
    #[trigger] body@.blob_versioned_hashes[i]).len() == 32 by {
        assert(body@.blob_versioned_hashes[i] == body.blob_versioned_hashes@[i]@);
    }
}

/// A sidecar whose encoded fields have a length that a machine word holds is
/// well formed.
pub proof fn lemma_sidecar_is_wf(sidecar: BlobTransactionSidecar)
    requires
        sidecar@.bytes().len() <= usize::MAX,
    ensures
        sidecar@.wf(),
{
    let v = sidecar@;
    lemma_header_bytes_len(true, str_items_bytes(v.blobs).len());
    lemma_header_bytes_len(true, str_items_bytes(v.commitments).len());
    lemma_header_bytes_len(true, str_items_bytes(v.proofs).len());
    assert forall|i: int| 0 <= i < v.blobs.len() implies (#[trigger] v.blobs[i]).len()
        == 131072 by {
        assert(v.blobs[i] == sidecar.blobs@[i]@);
    }
    assert forall|i: int| 0 <= i < v.commitments.len() implies (#[trigger] v.commitments[i]).len()
        == 48 by {
        assert(v.commitments[i] == sidecar.commitments@[i]@);
    }
    assert forall|i: int| 0 <= i < v.proofs.len() implies (#[trigger] v.proofs[i]).len()
        == 48 by {
        assert(v.proofs[i] == sidecar.proofs@[i]@);
    }
}

/// Round trip of a body: decoding the encoded fields of a body gives the
/// body back, whatever follows them.
pub proof fn lemma_body_round_trip(body: TxEip4844, rest: Seq<u8>)
    requires
        fields_bytes(body@).len() <= usize::MAX,
    ensures
        parse_fields(fields_bytes(body@) + rest) == Ok::<(TxEip4844View, nat), DecodeError>(
            (body@, fields_bytes(body@).len()),
        ),
{
    lemma_body_is_wf(body);
    lemma_parse_fields_bytes(body@, rest);
}

/// Round trip of a sidecar: decoding the encoded fields of a sidecar gives
/// the sidecar back, whatever follows them.
pub proof fn lemma_sidecar_round_trip(sidecar: BlobTransactionSidecar, rest: Seq<u8>)
    requires
        sidecar@.bytes().len() <= usize::MAX,
    ensures
        parse_sidecar(sidecar@.bytes() + rest) == Ok::<
            (BlobTransactionSidecarView, nat),
            DecodeError,
        >((sidecar@, sidecar@.bytes().len())),
{
    lemma_sidecar_is_wf(sidecar);
    lemma_parse_sidecar_bytes(sidecar@, rest);
}

/// Round trip in canonical form: decoding the canonical encoding of a signed
/// body gives body and signature back, with the hash of that encoding.
pub proof fn lemma_canonical_round_trip(body: TxEip4844, signature: Signature, rest: Seq<u8>)
    requires
        fields_bytes(body@).len() + signature_bytes(signature@).len() <= usize::MAX,
    ensures
        parse_canonical(canonical_bytes(body@, signature@) + rest) == Ok::<
            (TransactionSignedView, nat),
            DecodeError,
        >(
            (
                TransactionSignedView {
                    hash: blob_tx_hash(body@, signature@),
                    signature: signature@,
                    transaction: TransactionView::Eip4844(body@),
                },
                canonical_bytes(body@, signature@).len(),
            ),
        ),
{
    lemma_body_is_wf(body);
    lemma_signature_is_wf(signature);
    lemma_parse_canonical_bytes(body@, signature@, rest);
}

/// Two signed bodies with the same canonical encoding are the same: the
/// bytes that are hashed tell the body and the signature apart from all
/// others.
pub proof fn lemma_canonical_bytes_injective(
    body_a: TxEip4844,
    signature_a: Signature,
    body_b: TxEip4844,
    signature_b: Signature,
)
    requires
        fields_bytes(body_a@).len() + signature_bytes(signature_a@).len() <= usize::MAX,
        fields_bytes(body_b@).len() + signature_bytes(signature_b@).len() <= usize::MAX,
        canonical_bytes(body_a@, signature_a@) == canonical_bytes(body_b@, signature_b@),
    ensures
        body_a@ == body_b@,
        signature_a == signature_b,
{
    lemma_canonical_round_trip(body_a, signature_a, Seq::empty());
    lemma_canonical_round_trip(body_b, signature_b, Seq::empty());
    lemma_signature_injective(signature_a, signature_b);
}

/// A blob transaction that the pooled encoding can carry and bring back: a
/// signed blob transaction with the hash of its canonical encoding, and
/// encoded parts of lengths that a machine word holds.
pub open spec fn envelope_wf(tx: BlobTransactionView) -> bool {
    &&& tx.transaction.is_blob_wf()
    &&& tx.sidecar.wf()
    &&& tx.payload().len() <= usize::MAX
}

/// Round trip in pooled form: decoding the pooled encoding of a blob
/// transaction gives the transaction and its sidecar back, whatever follows.
pub proof fn lemma_envelope_round_trip(tx: BlobTransactionView, rest: Seq<u8>)
    requires
        envelope_wf(tx),
    ensures
        parse_envelope(tx.inner_bytes() + rest) == Ok::<(BlobTransactionView, nat), DecodeError>(
            (tx, tx.inner_bytes().len()),
        ),
{
    let body = tx.transaction.transaction->Eip4844_0;
    let signature = tx.transaction.signature;
    let fb = fields_bytes(body);
    let sb = signature_bytes(signature);
    let cb = tx.sidecar.bytes();
    let signed_payload = fb + sb;
    let h1 = header_bytes(true, signed_payload.len());
    let payload = tx.payload();
    let h0 = header_bytes(true, payload.len());
    let t4 = cb + rest;
    let t3 = sb + t4;
    let t2 = fb + t3;
    let t1 = h1 + t2;
    let t0 = h0 + t1;
    lemma_header_bytes_len(true, signed_payload.len());
    assert(payload == h1 + signed_payload + cb);
    assert(tx.inner_bytes() + rest == t0 && payload + rest == t1 && signed_payload + t4 == t2)
        by {
        lemma_join_assoc(fb, sb, t4);
        lemma_join_assoc(h1, signed_payload, cb);
        lemma_join_assoc(h1, signed_payload + cb, rest);
        lemma_join_assoc(signed_payload, cb, rest);
        lemma_join_assoc(h1, signed_payload, t4);
        lemma_join_assoc(h0, payload, rest);
    }
    assert(parse_header(t0) == Ok::<(Header, nat), DecodeError>(
        (Header { list: true, payload_length: payload.len() as usize }, h0.len()),
    ) && t0.skip(h0.len() as int) == t1) by {
        lemma_parse_header_bytes(true, payload.len() as usize, t1);
        lemma_split_joined(h0, t1);
    }
    assert(parse_header(t1) == Ok::<(Header, nat), DecodeError>(
        (Header { list: true, payload_length: signed_payload.len() as usize }, h1.len()),
    ) && t1.skip(h1.len() as int) == t2) by {
        lemma_parse_header_bytes(true, signed_payload.len() as usize, t2);
        lemma_split_joined(h1, t2);
    }
    assert(parse_fields(t2) == Ok::<(TxEip4844View, nat), DecodeError>((body, fb.len()))
        && t2.skip(fb.len() as int) == t3) by {
        lemma_parse_fields_bytes(body, t3);
        lemma_split_joined(fb, t3);
    }
    assert(parse_signature(t3) == Ok::<(SignatureView, nat), DecodeError>((signature, sb.len()))
        && t3.skip(sb.len() as int) == t4) by {
        lemma_parse_signature_bytes(signature, t4);
        lemma_split_joined(sb, t4);
    }
    assert(parse_sidecar(t4) == Ok::<(BlobTransactionSidecarView, nat), DecodeError>(
        (tx.sidecar, cb.len()),
    )) by {
        lemma_parse_sidecar_bytes(tx.sidecar, rest);
    }
    assert(parse_envelope_fields(t2, h0.len() + h1.len()) == Ok::<
        (BlobTransactionView, nat),
        DecodeError,
    >((tx, tx.inner_bytes().len())));
}

/// Two blob transactions with the same pooled encoding are the same.
pub proof fn lemma_pooled_bytes_injective(a: BlobTransactionView, b: BlobTransactionView)
    requires
        envelope_wf(a),
        envelope_wf(b),
        a.inner_bytes() == b.inner_bytes(),
    ensures
        a == b,
{
    lemma_envelope_round_trip(a, Seq::empty());
    lemma_envelope_round_trip(b, Seq::empty());
}

/// The hash does not depend on the sidecar: two blob transactions with the
/// same signed body and whatever sidecars decode, from their pooled
/// encodings, to the same hash, the hash of the canonical encoding.
pub proof fn lemma_hash_independent_of_sidecar(
    a: BlobTransactionView,
    b: BlobTransactionView,
    rest_a: Seq<u8>,
    rest_b: Seq<u8>,
)
    requires
        envelope_wf(a),
        envelope_wf(b),
        a.transaction.transaction == b.transaction.transaction,
        a.transaction.signature == b.transaction.signature,
    ensures
        parse_envelope(a.inner_bytes() + rest_a) is Ok,
        parse_envelope(b.inner_bytes() + rest_b) is Ok,
        parse_envelope(a.inner_bytes() + rest_a)->Ok_0.0.transaction.hash == parse_envelope(
            b.inner_bytes() + rest_b,
        )->Ok_0.0.transaction.hash,
        parse_envelope(a.inner_bytes() + rest_a)->Ok_0.0.transaction.hash == blob_tx_hash(
            a.transaction.transaction->Eip4844_0,
            a.transaction.signature,
        ),
{
    lemma_envelope_round_trip(a, rest_a);
    lemma_envelope_round_trip(b, rest_b);
}

/// Whatever input is accepted in pooled form, the hash of what was read is
/// that of the canonical encoding of its body and signature.
pub proof fn lemma_decoded_hash_is_canonical(s: Seq<u8>)
    requires
        parse_envelope(s) is Ok,
    ensures
        ({
            let tx = parse_envelope(s)->Ok_0.0.transaction;
            &&& tx.transaction is Eip4844
            &&& tx.hash == blob_tx_hash(tx.transaction->Eip4844_0, tx.signature)
        }),
{
}

/// The length of the pooled encoding: the type byte and the list, and the
/// byte-string header before them where one is asked for.
pub proof fn lemma_with_type_len(tx: BlobTransactionView, with_header: bool)
    ensures
        tx.with_type_bytes(false).len() == 1 + tx.inner_bytes().len(),
        tx.with_type_bytes(true).len() == header_bytes(
            false,
            (1 + tx.inner_bytes().len()) as nat,
        ).len() + 1 + tx.inner_bytes().len(),
        tx.with_type_bytes(true) == header_bytes(false, tx.with_type_bytes(false).len())
            + tx.with_type_bytes(false),
{
}

/// A single wrong hash makes the answer `false`: where the transaction is a
/// blob transaction with as many hashes as commitments, and one declared hash
/// is replaced by anything but the versioned hash of its commitment, the
/// hashes no longer check out, whatever the other entries are.
pub proof fn lemma_wrong_hash_is_refused(tx: BlobTransactionView, i: int, wrong: Seq<u8>)
    requires
        tx.transaction.transaction is Eip4844,
        tx.transaction.transaction->Eip4844_0.blob_versioned_hashes.len()
            == tx.sidecar.commitments.len(),
        0 <= i < tx.sidecar.commitments.len(),
        wrong != versioned_hash(tx.sidecar.commitments[i]),
    ensures
        ({
            let body = tx.transaction.transaction->Eip4844_0;
            let mutated = BlobTransactionView {
                transaction: TransactionSignedView {
                    transaction: TransactionView::Eip4844(
                        TxEip4844View {
                            blob_versioned_hashes: body.blob_versioned_hashes.update(i, wrong),
                            ..body
                        },
                    ),
                    ..tx.transaction
                },
                ..tx
            };
            mutated.hashes_outcome() == Ok::<bool, BlobTransactionValidationError>(false)
        }),
{
    let body = tx.transaction.transaction->Eip4844_0;
    let hashes = body.blob_versioned_hashes.update(i, wrong);
    assert(hashes[i] == wrong);
    assert(!hashes_match(hashes, tx.sidecar.commitments));
}

/// The answer `true` means that everything checked out: the transaction is
/// a blob transaction with as many hashes as commitments, every declared
/// hash is the versioned hash of its commitment, and the batch verification
/// of this sidecar under this setup answered `true`.
pub proof fn lemma_accepted_means_verified(tx: BlobTransactionView, settings: c_kzg::KzgSettings)
    requires
        tx.outcome(settings) == Ok::<bool, BlobTransactionValidationError>(true),
    ensures
        tx.transaction.transaction is Eip4844,
        tx.transaction.transaction->Eip4844_0.blob_versioned_hashes.len()
            == tx.sidecar.commitments.len(),
        hashes_match(
            tx.transaction.transaction->Eip4844_0.blob_versioned_hashes,
            tx.sidecar.commitments,
        ),
        batch_verdict(settings, tx.sidecar.blobs, tx.sidecar.commitments, tx.sidecar.proofs)
            == Ok::<bool, c_kzg::Error>(true),
{
}

/// Where the hashes check out, validation answers what the batch
/// verification of this sidecar under this setup answers: its verdict as the
/// answer, and its error as an error, never as the answer `false`.
pub proof fn lemma_batch_answer_is_passed_on(tx: BlobTransactionView, settings: c_kzg::KzgSettings)
    requires
        tx.hashes_outcome() == Ok::<bool, BlobTransactionValidationError>(true),
    ensures
        ({
            let verdict = batch_verdict(
                settings,
                tx.sidecar.blobs,
                tx.sidecar.commitments,
                tx.sidecar.proofs,
            );
            &&& verdict is Ok ==> tx.outcome(settings) == Ok::<
                bool,
                BlobTransactionValidationError,
            >(verdict->Ok_0)
            &&& verdict is Err ==> tx.outcome(settings) == Err::<
                bool,
                BlobTransactionValidationError,
            >(BlobTransactionValidationError::KZGError(KzgError::Library(verdict->Err_0)))
        }),
{
}

/// One commitment fewer than hashes, or any other difference in their
/// number, is a length mismatch, which carries the two counts.
pub proof fn lemma_missing_commitment_is_mismatch(tx: BlobTransactionView)
    requires
        tx.transaction.transaction is Eip4844,
        tx.transaction.transaction->Eip4844_0.blob_versioned_hashes.len()
            != tx.sidecar.commitments.len(),
    ensures
        ({
            let hashes = tx.transaction.transaction->Eip4844_0.blob_versioned_hashes;
            tx.hashes_outcome() == Err::<bool, BlobTransactionValidationError>(
                BlobTransactionValidationError::KZGError(
                    KzgError::MismatchLength {
                        versioned_hashes: hashes.len() as usize,
                        commitments: tx.sidecar.commitments.len() as usize,
                    },
                ),
            )
        }),
{
}

/// A transaction of another kind is refused with its kind, whatever the
/// sidecar holds.
pub proof fn lemma_other_kind_is_refused(tx: BlobTransactionView)
    requires
        !(tx.transaction.transaction is Eip4844),
    ensures
        tx.hashes_outcome() == Err::<bool, BlobTransactionValidationError>(
            BlobTransactionValidationError::NotBlobTransaction(
                tx.transaction.transaction.tx_type(),
            ),
        ),
        tx.transaction.transaction.tx_type() != TxType::EIP4844,
{
}

} // verus!
