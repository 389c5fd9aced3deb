//! A transaction with its signature and its hash, and the canonical encoding
//! that the hash of a blob transaction is taken of.

use crate::body::{
    body_wf, fields_bytes, lemma_parse_fields_bytes, lemma_parse_fields_canonical, parse_fields,
    TxEip4844, TxEip4844View,
};
use crate::hashing::{keccak256, keccak256_digest};
use crate::primitives::{EIP4844_TX_TYPE_ID, H256};
use crate::rlp::concat::{lemma_advance, lemma_join_assoc, lemma_split_joined};
use crate::rlp::error::DecodeError;
use crate::rlp::header::{
    header_bytes, lemma_parse_header_bytes, lemma_parse_header_canonical, parse_header, Header,
};
use crate::rlp::list::list_bytes;
use crate::signature::{
    lemma_parse_signature_bytes, lemma_parse_signature_canonical, parse_signature,
    signature_bytes, signature_wf, Signature, SignatureView,
};
use crate::transaction::{Transaction, TransactionView};
use vstd::prelude::*;
use vstd::slice::slice_subrange;

verus! {

/// A transaction with its signature and the hash that identifies it.
#[derive(Clone, Debug, PartialEq, Eq, Hash, Default)]
pub struct TransactionSigned {
    /// The hash that identifies the transaction.
    pub hash: H256,
    /// The signature.
    pub signature: Signature,
    /// The transaction.
    pub transaction: Transaction,
}

/// What a signed transaction holds.
pub struct TransactionSignedView {
    pub hash: Seq<u8>,
    pub signature: SignatureView,
    pub transaction: TransactionView,
}

impl View for TransactionSigned {
    type V = TransactionSignedView;

    open spec fn view(&self) -> TransactionSignedView {
        TransactionSignedView {
            hash: self.hash@,
            signature: self.signature@,
            transaction: self.transaction@,
        }
    }
}

/// The signed payload: the list of the transaction's fields followed by the
/// three fields of the signature.
pub open spec fn signed_list_bytes(fields: Seq<u8>, signature: SignatureView) -> Seq<u8> {
    list_bytes(fields + signature_bytes(signature))
}

/// The canonical encoding of a signed blob transaction: the type byte, then
/// the signed payload. No sidecar is part of it.
pub open spec fn canonical_bytes(body: TxEip4844View, signature: SignatureView) -> Seq<u8> {
    seq![EIP4844_TX_TYPE_ID] + signed_list_bytes(fields_bytes(body), signature)
}

/// The hash that identifies a signed blob transaction: the Keccak-256 digest
/// of its canonical encoding.
pub open spec fn blob_tx_hash(body: TxEip4844View, signature: SignatureView) -> Seq<u8> {
    keccak256_digest(canonical_bytes(body, signature))
}

impl TransactionSignedView {
    /// The signed payload of the transaction.
    pub open spec fn signed_list_bytes(self) -> Seq<u8> {
        signed_list_bytes(self.transaction.fields_bytes(), self.signature)
    }

    /// The number of bytes of the fields of the transaction and of the
    /// signature together: the payload of the signed list.
    pub open spec fn signed_payload_len(self) -> nat {
        self.transaction.fields_bytes().len() + signature_bytes(self.signature).len()
    }

    /// A signed blob transaction of a well-formed body, with the hash of its
    /// canonical encoding.
    pub open spec fn is_blob_wf(self) -> bool {
        &&& self.transaction is Eip4844
        &&& body_wf(self.transaction->Eip4844_0)
        &&& signature_wf(self.signature)
        &&& self.hash == blob_tx_hash(self.transaction->Eip4844_0, self.signature)
    }
}

impl TransactionSigned {
    /// The number of bytes that `encode_signed_list` writes.
    pub fn signed_list_len(&self) -> (n: usize)
        requires
            self@.signed_list_bytes().len() <= usize::MAX,
        ensures
            n == self@.signed_list_bytes().len(),
    {
        let payload_length: usize = self.transaction.fields_len() + self.signature.payload_len();
        let h = Header { list: true, payload_length };
        h.length() + payload_length
    }

    /// Appends the signed payload to `out`: a list header, the fields of the
    /// transaction and the fields of the signature.
    pub fn encode_signed_list(&self, out: &mut Vec<u8>)
        requires
            self@.signed_payload_len() <= usize::MAX,
        ensures
            final(out)@ == old(out)@ + self@.signed_list_bytes(),
    {
        let payload_length: usize = self.transaction.fields_len() + self.signature.payload_len();
        let h = Header { list: true, payload_length };
        h.encode(out);
        self.transaction.encode_fields(out);
        self.signature.encode(out);
        assert(out@ =~= old(out)@ + self@.signed_list_bytes());
    }

    /// Signs off a blob transaction: puts body and signature together and
    /// computes the hash from the canonical encoding of the two.
    pub fn from_blob_body(body: TxEip4844, signature: Signature) -> (tx: TransactionSigned)
        requires
            fields_bytes(body@).len() + signature_bytes(signature@).len() <= usize::MAX,
        ensures
            tx@.transaction == TransactionView::Eip4844(body@),
            tx@.signature == signature@,
            tx@.hash == blob_tx_hash(body@, signature@),
    {
        let mut encoding: Vec<u8> = Vec::new();
        body.encode_with_signature(&signature, &mut encoding);
        assert(encoding@ =~= canonical_bytes(body@, signature@));
        let hash: H256 = keccak256(encoding.as_slice());
        TransactionSigned { hash, signature, transaction: Transaction::Eip4844(body) }
    }

    /// Reads a signed blob transaction in its canonical encoding from the
    /// front of `buf` and moves `buf` past it. The hash is computed from the
    /// canonical encoding of what was read. A refused input leaves `buf` where
    /// it was.
    pub fn decode_enveloped_blob(buf: &mut &[u8]) -> (r: Result<TransactionSigned, DecodeError>)
        ensures
            match parse_canonical(old(buf)@) {
                Ok((tx, k)) => r is Ok && r->Ok_0@ == tx && final(buf)@ == old(buf)@.skip(
                    k as int,
                ),
                Err(e) => r == Err::<TransactionSigned, DecodeError>(e) && *final(buf) == *old(
                    buf,
                ),
            },
    {
        let input: &[u8] = *buf;
        if input.len() == 0 {
            return Err(DecodeError::InputTooShort);
        }
        if input[0] != EIP4844_TX_TYPE_ID {
            return Err(DecodeError::Custom("unsupported typed transaction type"));
        }
        let mut rest: &[u8] = slice_subrange(input, 1, input.len());
        let ghost s1 = rest@;
        assert(s1 =~= input@.skip(1));
        let h = match Header::decode(&mut rest) {
            Ok(h) => h,
            Err(e) => {
                return Err(e);
            },
        };
        if !h.list {
            return Err(DecodeError::UnexpectedString);
        }
        let ghost s2 = rest@;
        let started: usize = rest.len();
        let body: TxEip4844 = match TxEip4844::decode_inner(&mut rest) {
            Ok(b) => b,
            Err(e) => {
                return Err(e);
            },
        };
        let ghost s3 = rest@;
        let signature: Signature = match Signature::decode(&mut rest) {
            Ok(sig) => sig,
            Err(e) => {
                return Err(e);
            },
        };
        proof {
            lemma_parse_header_canonical(s1);
            lemma_parse_fields_canonical(s2);
            lemma_parse_signature_canonical(s3);
        }
        let consumed: usize = started - rest.len();
        if consumed != h.payload_length {
            return Err(
                DecodeError::ListLengthMismatch { expected: h.payload_length, got: consumed },
            );
        }
        proof {
            let hk = parse_header(s1)->Ok_0.1;
            let kf = parse_fields(s2)->Ok_0.1;
            let ks = parse_signature(s3)->Ok_0.1;
            lemma_advance(s2, kf, ks);
            lemma_advance(s1, hk, kf + ks);
            lemma_advance(input@, 1, hk + kf + ks);
        }
        *buf = rest;
        Ok(TransactionSigned::from_blob_body(body, signature))
    }
}

impl TxEip4844 {
    /// Appends the canonical encoding of the body signed with `signature` to
    /// `out`: the type byte, then the list of the fields of the body and of
    /// the signature.
    pub fn encode_with_signature(&self, signature: &Signature, out: &mut Vec<u8>)
        requires
            fields_bytes(self@).len() + signature_bytes(signature@).len() <= usize::MAX,
        ensures
            final(out)@ == old(out)@ + canonical_bytes(self@, signature@),
    {
        let payload_length: usize = self.fields_len() + signature.payload_len();
        let h = Header { list: true, payload_length };
        out.push(EIP4844_TX_TYPE_ID);
        h.encode(out);
        self.encode_fields(out);
        signature.encode(out);
        assert(out@ =~= old(out)@ + canonical_bytes(self@, signature@));
    }
}

/// Reads a signed blob transaction in its canonical encoding from the start
/// of `s`: the type byte, a list header, the fields of the body and the
/// fields of the signature, which must fill the list exactly. The hash is
/// that of the canonical encoding of what was read.
pub open spec fn parse_canonical(s: Seq<u8>) -> Result<(TransactionSignedView, nat), DecodeError> {
    if s.len() == 0 {
        Err(DecodeError::InputTooShort)
    } else if s[0] != EIP4844_TX_TYPE_ID {
        Err(DecodeError::Custom("unsupported typed transaction type"))
    } else {
        let s1 = s.skip(1);
        match parse_header(s1) {
            Err(e) => Err(e),
            Ok((h, hk)) => if !h.list {
                Err(DecodeError::UnexpectedString)
            } else {
                let s2 = s1.skip(hk as int);
                match parse_fields(s2) {
                    Err(e) => Err(e),
                    Ok((body, kf)) => match parse_signature(s2.skip(kf as int)) {
                        Err(e) => Err(e),
                        Ok((signature, ks)) => if kf + ks != h.payload_length {
                            Err(
                                DecodeError::ListLengthMismatch {
                                    expected: h.payload_length,
                                    got: (kf + ks) as usize,
                                },
                            )
                        } else {
                            Ok(
                                (
                                    TransactionSignedView {
                                        hash: blob_tx_hash(body, signature),
                                        signature,
                                        transaction: TransactionView::Eip4844(body),
                                    },
                                    1 + hk + h.payload_length as nat,
                                ),
                            )
                        },
                    },
                }
            },
        }
    }
}

/// Reading the canonical encoding of a well-formed signed blob transaction
/// gives body and signature back, with the hash of that encoding, and stops
/// right behind it.
pub proof fn lemma_parse_canonical_bytes(
    body: TxEip4844View,
    signature: SignatureView,
    rest: Seq<u8>,
)
    requires
        body_wf(body),
        signature_wf(signature),
        fields_bytes(body).len() + signature_bytes(signature).len() <= usize::MAX,
    ensures
        parse_canonical(canonical_bytes(body, signature) + rest) == Ok::<
            (TransactionSignedView, nat),
            DecodeError,
        >(
            (
                TransactionSignedView {
                    hash: blob_tx_hash(body, signature),
                    signature,
                    transaction: TransactionView::Eip4844(body),
                },
                canonical_bytes(body, signature).len(),
            ),
        ),
{
    let fb = fields_bytes(body);
    let sb = signature_bytes(signature);
    let payload = fb + sb;
    let hb = header_bytes(true, payload.len());
    let s = canonical_bytes(body, signature) + rest;
    let t3 = sb + rest;
    let t2 = fb + t3;
    let t1 = hb + t2;
    assert(s == seq![EIP4844_TX_TYPE_ID] + t1 && payload + rest == t2) by {
        lemma_join_assoc(fb, sb, rest);
        lemma_join_assoc(hb, payload, rest);
        lemma_join_assoc(seq![EIP4844_TX_TYPE_ID], hb + payload, rest);
    }
    assert(s[0] == EIP4844_TX_TYPE_ID && s.skip(1) == t1) by {
        lemma_split_joined(seq![EIP4844_TX_TYPE_ID], t1);
    }
    assert(parse_header(t1) == Ok::<(Header, nat), DecodeError>(
        (Header { list: true, payload_length: payload.len() as usize }, hb.len()),
    ) && t1.skip(hb.len() as int) == t2) by {
        lemma_parse_header_bytes(true, payload.len() as usize, t2);
        lemma_split_joined(hb, t2);
    }
    assert(parse_fields(t2) == Ok::<(TxEip4844View, nat), DecodeError>((body, fb.len()))
        && t2.skip(fb.len() as int) == t3) by {
        lemma_parse_fields_bytes(body, t3);
        lemma_split_joined(fb, t3);
    }
    assert(parse_signature(t3) == Ok::<(SignatureView, nat), DecodeError>((signature, sb.len())))
        by {
        lemma_parse_signature_bytes(signature, rest);
    }
}

/// A signed blob transaction that is accepted in canonical encoding is well
/// formed, and the bytes that were read are its canonical encoding.
pub proof fn lemma_parse_canonical_exact(s: Seq<u8>)
    requires
        parse_canonical(s) is Ok,
    ensures
        ({
            let (tx, k) = parse_canonical(s)->Ok_0;
            &&& k <= s.len()
            &&& tx.is_blob_wf()
            &&& s.take(k as int) == canonical_bytes(tx.transaction->Eip4844_0, tx.signature)
        }),
{
    let s1 = s.skip(1);
    let (h, hk) = parse_header(s1)->Ok_0;
    let s2 = s1.skip(hk as int);
    let (body, kf) = parse_fields(s2)->Ok_0;
    let s3 = s2.skip(kf as int);
    let (signature, ks) = parse_signature(s3)->Ok_0;
    lemma_parse_header_canonical(s1);
    lemma_parse_fields_canonical(s2);
    lemma_parse_signature_canonical(s3);
    lemma_advance(s2, kf, ks);
    lemma_advance(s1, hk, kf + ks);
    lemma_advance(s, 1, hk + kf + ks);
    assert(s.take(1) =~= seq![EIP4844_TX_TYPE_ID]);
    lemma_join_assoc(s.take(1), s1.take(hk as int), s2.take((kf + ks) as int));
}

} // verus!
