//! The blob transaction as peers exchange it: a signed transaction together
//! with the sidecar of its blobs. Its pooled encoding carries the sidecar;
//! its hash is taken of the canonical encoding, which does not.

use crate::body::{lemma_parse_fields_canonical, parse_fields, TxEip4844};
use crate::hashing::{kzg_to_versioned_hash, versioned_hash};
use crate::kzg::{batch_verdict, verify_blob_kzg_proof_batch, KzgError};
use crate::primitives::{fitting, fitting_sum, EIP4844_TX_TYPE_ID, H256};
use crate::rlp::concat::lemma_advance;
use crate::rlp::error::DecodeError;
use crate::rlp::fixed::bytes_eq;
use crate::rlp::header::{
    header_bytes, lemma_header_bytes_len, lemma_parse_header_canonical, parse_header, Header,
};
use crate::rlp::list::{list_bytes, views, MAX_HEADER_LENGTH};
use crate::sidecar::{
    lemma_parse_sidecar_canonical, parse_sidecar, BlobTransactionSidecar,
    BlobTransactionSidecarView,
};
use crate::signature::{
    lemma_parse_signature_canonical, lemma_signature_is_wf, parse_signature, Signature,
};
use crate::signed::{blob_tx_hash, TransactionSigned, TransactionSignedView};
use crate::transaction::{Transaction, TransactionView, TxType};
use vstd::prelude::*;

verus! {

/// Why a blob transaction could not be validated. That the data does not
/// check out is no such reason: it is the answer `false`.
#[derive(Debug)]
pub enum BlobTransactionValidationError {
    /// The commitment scheme could not give an answer.
    KZGError(KzgError),
    /// The transaction is not a blob transaction but one of this kind.
    NotBlobTransaction(TxType),
}

impl From<KzgError> for BlobTransactionValidationError {
    fn from(value: KzgError) -> (e: BlobTransactionValidationError) {
        BlobTransactionValidationError::KZGError(value)
    }
}

impl vstd::std_specs::convert::FromSpecImpl<KzgError> for BlobTransactionValidationError {
    open spec fn obeys_from_spec() -> bool {
        true
    }

    open spec fn from_spec(value: KzgError) -> BlobTransactionValidationError {
        BlobTransactionValidationError::KZGError(value)
    }
}

/// A signed transaction with the sidecar of its blobs, as it answers a
/// request for pooled transactions. The transaction is meant to be a blob
/// transaction: decoding gives no other, and validation refuses any other.
#[derive(Clone, Debug, PartialEq, Eq, Default)]
pub struct BlobTransaction {
    /// The signed transaction.
    pub transaction: TransactionSigned,
    /// The blobs of the transaction with their commitments and proofs.
    pub sidecar: BlobTransactionSidecar,
}

/// What a blob transaction with its sidecar holds.
pub struct BlobTransactionView {
    pub transaction: TransactionSignedView,
    pub sidecar: BlobTransactionSidecarView,
}

impl View for BlobTransaction {
    type V = BlobTransactionView;

    open spec fn view(&self) -> BlobTransactionView {
        BlobTransactionView { transaction: self.transaction@, sidecar: self.sidecar@ }
    }
}

/// Every declared hash is the versioned hash of the commitment at its place.
pub open spec fn hashes_match(hashes: Seq<Seq<u8>>, commitments: Seq<Seq<u8>>) -> bool {
    forall|i: int| 0 <= i < hashes.len() ==> #[trigger] hashes[i] == versioned_hash(commitments[i])
}

/// What validation answers once the batch verification has answered `batch`:
/// its verdict, or its error passed on.
pub open spec fn batch_outcome(batch: Result<bool, c_kzg::Error>) -> Result<
    bool,
    BlobTransactionValidationError,
> {
    match batch {
        Ok(verified) => Ok(verified),
        Err(e) => Err(BlobTransactionValidationError::KZGError(KzgError::Library(e))),
    }
}

impl BlobTransactionView {
    /// What the declared hashes say before any proof is verified: an error
    /// where the transaction is no blob transaction or where the hashes and
    /// the commitments differ in number; otherwise whether every hash is the
    /// versioned hash of its commitment.
    pub open spec fn hashes_outcome(self) -> Result<bool, BlobTransactionValidationError> {
        match self.transaction.transaction {
            TransactionView::Eip4844(body) => if body.blob_versioned_hashes.len()
                != self.sidecar.commitments.len() {
                Err(
                    BlobTransactionValidationError::KZGError(
                        KzgError::MismatchLength {
                            versioned_hashes: body.blob_versioned_hashes.len() as usize,
                            commitments: self.sidecar.commitments.len() as usize,
                        },
                    ),
                )
            } else {
                Ok(hashes_match(body.blob_versioned_hashes, self.sidecar.commitments))
            },
            other => Err(BlobTransactionValidationError::NotBlobTransaction(other.tx_type())),
        }
    }

    /// What validation under the trusted setup `settings` answers: what the
    /// declared hashes say, unless they all check out; then what the batch
    /// verification of the blobs against their commitments and proofs
    /// answers under `settings`.
    pub open spec fn outcome(self, settings: c_kzg::KzgSettings) -> Result<
        bool,
        BlobTransactionValidationError,
    > {
        match self.hashes_outcome() {
            Ok(true) => batch_outcome(
                batch_verdict(
                    settings,
                    self.sidecar.blobs,
                    self.sidecar.commitments,
                    self.sidecar.proofs,
                ),
            ),
            other => other,
        }
    }

    /// The payload of the pooled encoding: the signed list, then the three
    /// lists of the sidecar.
    pub open spec fn payload(self) -> Seq<u8> {
        self.transaction.signed_list_bytes() + self.sidecar.bytes()
    }

    /// The pooled encoding without its type byte: the list of the signed
    /// list and the three lists of the sidecar.
    pub open spec fn inner_bytes(self) -> Seq<u8> {
        list_bytes(self.payload())
    }

    /// The pooled encoding: the type byte and the list behind it, wrapped in
    /// a byte-string header where `with_header` is set.
    pub open spec fn with_type_bytes(self, with_header: bool) -> Seq<u8> {
        let typed = seq![EIP4844_TX_TYPE_ID] + self.inner_bytes();
        if with_header {
            header_bytes(false, typed.len()) + typed
        } else {
            typed
        }
    }
}

impl BlobTransaction {
    /// Holds the declared hashes against the commitments, without verifying
    /// any proof.
    pub fn check_versioned_hashes(&self) -> (r: Result<bool, BlobTransactionValidationError>)
        ensures
            r == self@.hashes_outcome(),
    {
        let inner_tx: &TxEip4844 = match &self.transaction.transaction {
            Transaction::Eip4844(blob_tx) => blob_tx,
            non_blob_tx => {
                return Err(
                    BlobTransactionValidationError::NotBlobTransaction(non_blob_tx.tx_type()),
                );
            },
        };
        let count: usize = inner_tx.blob_versioned_hashes.len();
        if count != self.sidecar.commitments.len() {
            return Err(
                BlobTransactionValidationError::KZGError(
                    KzgError::MismatchLength {
                        versioned_hashes: count,
                        commitments: self.sidecar.commitments.len(),
                    },
                ),
            );
        }
        let ghost hashes = views(inner_tx.blob_versioned_hashes@);
        let ghost commitments = views(self.sidecar.commitments@);
        let mut i: usize = 0;
        while i < count
            invariant
                i <= count,
                count == inner_tx.blob_versioned_hashes@.len(),
                count == self.sidecar.commitments@.len(),
                hashes == views(inner_tx.blob_versioned_hashes@),
                commitments == views(self.sidecar.commitments@),
                self@.transaction.transaction == TransactionView::Eip4844(inner_tx@),
                forall|j: int|
                    0 <= j < i ==> #[trigger] hashes[j] == versioned_hash(commitments[j]),
            decreases count - i,
        {
            let calculated: H256 = kzg_to_versioned_hash(&self.sidecar.commitments[i]);
            if !bytes_eq(inner_tx.blob_versioned_hashes[i].as_slice(), calculated.as_slice()) {
                assert(hashes[i as int] != versioned_hash(commitments[i as int]));
                return Ok(false);
            }
            i += 1;
        }
        Ok(true)
    }

    /// What validation answers once the batch verification has answered
    /// `batch`: its verdict, or its error passed on as an error.
    pub fn conclude(batch: Result<bool, c_kzg::Error>) -> (r: Result<
        bool,
        BlobTransactionValidationError,
    >)
        ensures
            r == batch_outcome(batch),
    {
        match batch {
            Ok(verified) => Ok(verified),
            Err(e) => Err(BlobTransactionValidationError::KZGError(KzgError::Library(e))),
        }
    }

    /// Validates the sidecar against the transaction under the trusted setup
    /// `proof_settings`.
    ///
    /// A transaction that is no blob transaction, or hashes and commitments
    /// that differ in number, are errors. A declared hash that is not the
    /// versioned hash of its commitment makes the answer `false`, and no
    /// proof is verified then. Otherwise all blobs are verified against their
    /// commitments and proofs in one batch under `proof_settings`: the
    /// verdict is the answer, and an error of the verification is passed on
    /// as an error. Blobs or proofs that differ in number from the
    /// commitments are such an error.
    pub fn validate(&self, proof_settings: &c_kzg::KzgSettings) -> (r: Result<
        bool,
        BlobTransactionValidationError,
    >)
        ensures
            r == self@.outcome(*proof_settings),
            self@.hashes_outcome() == Ok::<bool, BlobTransactionValidationError>(true) && (
            self@.sidecar.blobs.len() != self@.sidecar.commitments.len()
                || self@.sidecar.blobs.len() != self@.sidecar.proofs.len()) ==> r is Err,
    {
        match self.check_versioned_hashes() {
            Ok(true) => {
                let batch = verify_blob_kzg_proof_batch(
                    proof_settings,
                    &self.sidecar.blobs,
                    &self.sidecar.commitments,
                    &self.sidecar.proofs,
                );
                Self::conclude(batch)
            },
            other => other,
        }
    }

    /// Splits the transaction from its sidecar.
    pub fn into_parts(self) -> (parts: (TransactionSigned, BlobTransactionSidecar))
        ensures
            parts.0 == self.transaction,
            parts.1 == self.sidecar,
    {
        (self.transaction, self.sidecar)
    }
}

/// Reads a blob transaction in its pooled encoding, without the type byte,
/// from the start of `s`: an outer list header, the header of the signed
/// list, the fields of the body, the fields of the signature, and behind
/// them the three lists of the sidecar. The hash is that of the canonical
/// encoding of body and signature: no byte of the sidecar goes into it.
pub open spec fn parse_envelope(s: Seq<u8>) -> Result<(BlobTransactionView, nat), DecodeError> {
    match parse_header(s) {
        Err(e) => Err(e),
        Ok((outer, k0)) => if !outer.list {
            Err(DecodeError::Custom("PooledTransactions blob tx must be encoded as a list"))
        } else {
            let s1 = s.skip(k0 as int);
            match parse_header(s1) {
                Err(e) => Err(e),
                Ok((inner, k1)) => if !inner.list {
                    Err(
                        DecodeError::Custom(
                            "PooledTransactions inner blob tx must be encoded as a list",
                        ),
                    )
                } else {
                    parse_envelope_fields(s1.skip(k1 as int), k0 + k1)
                },
            }
        },
    }
}

/// Reads what follows the two list headers, which took `headers` bytes: the
/// fields of the body, the fields of the signature and the three lists of
/// the sidecar.
pub open spec fn parse_envelope_fields(s: Seq<u8>, headers: nat) -> Result<
    (BlobTransactionView, nat),
    DecodeError,
> {
    match parse_fields(s) {
        Err(e) => Err(e),
        Ok((body, kf)) => {
            let s3 = s.skip(kf as int);
            match parse_signature(s3) {
                Err(e) => Err(e),
                Ok((signature, ks)) => match parse_sidecar(s3.skip(ks as int)) {
                    Err(e) => Err(e),
                    Ok((sidecar, kc)) => Ok(
                        (
                            BlobTransactionView {
                                transaction: TransactionSignedView {
                                    hash: blob_tx_hash(body, signature),
                                    signature,
                                    transaction: TransactionView::Eip4844(body),
                                },
                                sidecar,
                            },
                            headers + kf + ks + kc,
                        ),
                    ),
                },
            }
        },
    }
}

impl BlobTransaction {
    /// The number of bytes that `encode_inner` writes: the two list headers,
    /// the fields of the transaction and of the signature, and the three
    /// lists of the sidecar.
    pub fn payload_len(&self) -> (n: usize)
        requires
            self@.inner_bytes().len() <= usize::MAX,
        ensures
            n == self@.inner_bytes().len(),
    {
        let payload_length: usize = self.transaction.signed_list_len() + self.sidecar.fields_len();
        let blob_tx_header = Header { list: true, payload_length };
        blob_tx_header.length() + payload_length
    }

    /// The number of bytes that `encode_with_type_inner` writes with the same
    /// `with_header`.
    pub fn payload_len_with_type(&self, with_header: bool) -> (n: usize)
        requires
            self@.with_type_bytes(with_header).len() <= usize::MAX,
        ensures
            n == self@.with_type_bytes(with_header).len(),
    {
        if with_header {
            let wrapped_header = Header { list: false, payload_length: 1 + self.payload_len() };
            wrapped_header.length() + wrapped_header.payload_length
        } else {
            1 + self.payload_len()
        }
    }

    /// Appends the pooled encoding without its type byte to `out`: the list
    /// of the signed list and the three lists of the sidecar. Every length
    /// is computed before the header that declares it is written.
    pub fn encode_inner(&self, out: &mut Vec<u8>)
        requires
            self@.payload().len() <= usize::MAX,
        ensures
            final(out)@ == old(out)@ + self@.inner_bytes(),
    {
        proof {
            lemma_header_bytes_len(true, self@.transaction.signed_payload_len());
        }
        let payload_length: usize = self.transaction.signed_list_len() + self.sidecar.fields_len();
        let blob_tx_header = Header { list: true, payload_length };
        blob_tx_header.encode(out);
        self.transaction.encode_signed_list(out);
        self.sidecar.encode_inner(out);
        assert(out@ =~= old(out)@ + self@.inner_bytes());
    }

    /// Appends the pooled encoding to `out`: the type byte and the list
    /// behind it. Where `with_header` is set, a byte-string header comes
    /// first, which declares the length of the type byte and the list.
    pub fn encode_with_type_inner(&self, out: &mut Vec<u8>, with_header: bool)
        requires
            self@.inner_bytes().len() < usize::MAX,
        ensures
            final(out)@ == old(out)@ + self@.with_type_bytes(with_header),
    {
        if with_header {
            let wrapped_header = Header { list: false, payload_length: 1 + self.payload_len() };
            wrapped_header.encode(out);
        }
        out.push(EIP4844_TX_TYPE_ID);
        self.encode_inner(out);
        assert(out@ =~= old(out)@ + self@.with_type_bytes(with_header));
    }

    /// Reads a blob transaction in its pooled encoding, without the type
    /// byte, from the front of `buf` and moves `buf` past it. The hash of the
    /// transaction is computed from the canonical encoding of its body and
    /// signature, never from the bytes that were read. A refused input leaves
    /// `buf` where it was.
    pub fn decode_inner(buf: &mut &[u8]) -> (r: Result<BlobTransaction, DecodeError>)
        ensures
            match parse_envelope(old(buf)@) {
                Ok((tx, k)) => r is Ok && r->Ok_0@ == tx && final(buf)@ == old(buf)@.skip(
                    k as int,
                ),
                Err(e) => r == Err::<BlobTransaction, DecodeError>(e) && *final(buf) == *old(buf),
            },
    {
        let input: &[u8] = *buf;
        let mut rest: &[u8] = input;
        let ghost s0 = input@;
        let header = match Header::decode(&mut rest) {
            Ok(h) => h,
            Err(e) => {
                return Err(e);
            },
        };
        if !header.list {
            return Err(
                DecodeError::Custom("PooledTransactions blob tx must be encoded as a list"),
            );
        }
        let ghost s1 = rest@;
        let header = match Header::decode(&mut rest) {
            Ok(h) => h,
            Err(e) => {
                return Err(e);
            },
        };
        if !header.list {
            return Err(
                DecodeError::Custom("PooledTransactions inner blob tx must be encoded as a list"),
            );
        }
        let ghost s2 = rest@;
        let body: TxEip4844 = match TxEip4844::decode_inner(&mut rest) {
            Ok(b) => b,
            Err(e) => {
                return Err(e);
            },
        };
        let ghost s3 = rest@;
        let signature: Signature = match Signature::decode(&mut rest) {
            Ok(sig) => sig,
            Err(e) => {
                return Err(e);
            },
        };
        let ghost s4 = rest@;
        let sidecar: BlobTransactionSidecar = match BlobTransactionSidecar::decode_inner(
            &mut rest,
        ) {
            Ok(sc) => sc,
            Err(e) => {
                return Err(e);
            },
        };
        proof {
            lemma_parse_header_canonical(s0);
            lemma_parse_header_canonical(s1);
            lemma_parse_fields_canonical(s2);
            lemma_parse_signature_canonical(s3);
            lemma_parse_sidecar_canonical(s4);
            let k0 = parse_header(s0)->Ok_0.1;
            let k1 = parse_header(s1)->Ok_0.1;
            let kf = parse_fields(s2)->Ok_0.1;
            let ks = parse_signature(s3)->Ok_0.1;
            let kc = parse_sidecar(s4)->Ok_0.1;
            lemma_advance(s0, k0, k1);
            lemma_advance(s0, k0 + k1, kf);
            lemma_advance(s0, k0 + k1 + kf, ks);
            lemma_advance(s0, k0 + k1 + kf + ks, kc);
            assert(s2.take(kf as int).len() == kf);
            assert(s3.take(ks as int).len() == ks);
            assert(s0.len() == input.len());
        }
        *buf = rest;
        let transaction = TransactionSigned::from_blob_body(body, signature);
        Ok(BlobTransaction { transaction, sidecar })
    }
}

impl BlobTransactionView {
    /// A bound on the length of the pooled encoding, with its type byte and
    /// its byte-string header: the bounds of the fields of the transaction,
    /// of the signature and of the sidecar, two list headers, the type byte
    /// and the byte-string header.
    pub open spec fn len_bound(self) -> nat {
        self.transaction.transaction.fields_len_bound() + MAX_SIGNATURE_LENGTH as nat
            + self.sidecar.len_bound() + 3 * MAX_HEADER_LENGTH as nat + 1
    }
}

/// The most bytes that the encoded fields of a signature take.
pub const MAX_SIGNATURE_LENGTH: usize = 67;

impl BlobTransaction {
    /// A bound on the length of the pooled encoding, or nothing where the
    /// bound is larger than any machine word. Where there is a bound, the
    /// transaction can be encoded in every form, and its lengths can be
    /// computed.
    pub fn length_bound(&self) -> (bound: Option<usize>)
        ensures
            bound == fitting(self@.len_bound()),
            bound is Some ==> self@.with_type_bytes(true).len() <= bound->Some_0,
            bound is Some ==> self@.with_type_bytes(false).len() <= bound->Some_0,
            bound is Some ==> self@.inner_bytes().len() < bound->Some_0,
            bound is Some ==> self@.payload().len() < bound->Some_0,
            bound is Some ==> self@.transaction.signed_payload_len() < bound->Some_0,
    {
        let bound: Option<usize> = fitting_sum(
            fitting_sum(
                self.transaction.transaction.fields_length_bound(),
                self.sidecar.length_bound(),
            ),
            Some(MAX_SIGNATURE_LENGTH + 3 * MAX_HEADER_LENGTH + 1),
        );
        proof {
            if bound is Some {
                lemma_signature_is_wf(self.transaction.signature);
                lemma_header_bytes_len(true, self@.transaction.signed_payload_len());
                lemma_header_bytes_len(true, self@.payload().len());
                lemma_header_bytes_len(false, (1 + self@.inner_bytes().len()) as nat);
            }
        }
        bound
    }
}

} // verus!
