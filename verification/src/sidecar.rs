//! The sidecar of a blob transaction: the blobs, and for each blob its
//! commitment and its proof.

use crate::primitives::{
    fitting, fitting_sum, Blob, Bytes48, BYTES_PER_BLOB, BYTES_PER_COMMITMENT, BYTES_PER_PROOF,
};
use crate::rlp::concat::{lemma_advance, lemma_join_assoc, lemma_split_joined};
use crate::rlp::error::DecodeError;
use crate::rlp::header::lemma_header_bytes_len;
use crate::rlp::list::{
    fixed_list_len_bound, fixed_list_length_bound,
    decode_fixed_list, encode_fixed_list, fixed_list_length, lemma_parse_fixed_list_bytes,
    lemma_parse_fixed_list_canonical, parse_fixed_list, str_items_bytes, str_list_bytes, views,
};
use vstd::prelude::*;

verus! {

/// The blobs of a transaction with their commitments and proofs. The three
/// lists are meant to have one entry per blob, in the order of the blobs;
/// nothing here enforces that: validation does.
#[derive(Clone, Debug, PartialEq, Eq, Default)]
pub struct BlobTransactionSidecar {
    /// The blob data.
    pub blobs: Vec<Blob>,
    /// The commitment to each blob.
    pub commitments: Vec<Bytes48>,
    /// The proof for each blob.
    pub proofs: Vec<Bytes48>,
}

/// What a sidecar holds.
pub struct BlobTransactionSidecarView {
    pub blobs: Seq<Seq<u8>>,
    pub commitments: Seq<Seq<u8>>,
    pub proofs: Seq<Seq<u8>>,
}

impl View for BlobTransactionSidecar {
    type V = BlobTransactionSidecarView;

    open spec fn view(&self) -> BlobTransactionSidecarView {
        BlobTransactionSidecarView {
            blobs: views(self.blobs@),
            commitments: views(self.commitments@),
            proofs: views(self.proofs@),
        }
    }
}

/// Every item of `items` has `n` bytes.
pub open spec fn all_of_width(items: Seq<Seq<u8>>, n: nat) -> bool {
    forall|i: int| 0 <= i < items.len() ==> (#[trigger] items[i]).len() == n
}

impl BlobTransactionSidecarView {
    /// The encoded fields of the sidecar: the list of blobs, the list of
    /// commitments and the list of proofs, side by side without a header
    /// around them.
    pub open spec fn bytes(self) -> Seq<u8> {
        str_list_bytes(self.blobs) + str_list_bytes(self.commitments) + str_list_bytes(
            self.proofs,
        )
    }

    /// The heuristic size of the sidecar in memory.
    pub open spec fn size(self) -> nat {
        self.blobs.len() * BYTES_PER_BLOB as nat + self.commitments.len()
            * BYTES_PER_COMMITMENT as nat + self.proofs.len() * BYTES_PER_PROOF as nat
    }

    /// A sidecar whose items have the widths of blobs, commitments and
    /// proofs, and whose encoded lists have lengths that a machine word
    /// holds. The view of every `BlobTransactionSidecar` that can be encoded
    /// is one.
    pub open spec fn wf(self) -> bool {
        &&& all_of_width(self.blobs, BYTES_PER_BLOB as nat)
        &&& all_of_width(self.commitments, BYTES_PER_COMMITMENT as nat)
        &&& all_of_width(self.proofs, BYTES_PER_PROOF as nat)
        &&& str_items_bytes(self.blobs).len() <= usize::MAX
        &&& str_items_bytes(self.commitments).len() <= usize::MAX
        &&& str_items_bytes(self.proofs).len() <= usize::MAX
    }
}

/// Reads the three lists of a sidecar from the start of `s`: the sidecar and
/// the number of bytes they took.
pub open spec fn parse_sidecar(s: Seq<u8>) -> Result<
    (BlobTransactionSidecarView, nat),
    DecodeError,
> {
    match parse_fixed_list(s, BYTES_PER_BLOB as nat) {
        Err(e) => Err(e),
        Ok((blobs, k0)) => {
            let s1 = s.skip(k0 as int);
            match parse_fixed_list(s1, BYTES_PER_COMMITMENT as nat) {
                Err(e) => Err(e),
                Ok((commitments, k1)) => match parse_fixed_list(
                    s1.skip(k1 as int),
                    BYTES_PER_PROOF as nat,
                ) {
                    Err(e) => Err(e),
                    Ok((proofs, k2)) => Ok(
                        (BlobTransactionSidecarView { blobs, commitments, proofs }, k0 + k1 + k2),
                    ),
                },
            }
        },
    }
}

impl BlobTransactionSidecar {
    /// Appends the encoded fields of the sidecar to `out`: the blobs, then
    /// the commitments, then the proofs, each as a list of its own.
    pub fn encode_inner(&self, out: &mut Vec<u8>)
        requires
            self@.bytes().len() <= usize::MAX,
        ensures
            final(out)@ == old(out)@ + self@.bytes(),
    {
        proof {
            lemma_header_bytes_len(true, str_items_bytes(self@.blobs).len());
            lemma_header_bytes_len(true, str_items_bytes(self@.commitments).len());
            lemma_header_bytes_len(true, str_items_bytes(self@.proofs).len());
        }
        encode_fixed_list(&self.blobs, out);
        encode_fixed_list(&self.commitments, out);
        encode_fixed_list(&self.proofs, out);
        assert(out@ =~= old(out)@ + self@.bytes());
    }

    /// The number of bytes that `encode_inner` writes: the encoded lengths of
    /// the three lists, with no header around them.
    pub fn fields_len(&self) -> (n: usize)
        requires
            self@.bytes().len() <= usize::MAX,
        ensures
            n == self@.bytes().len(),
    {
        fixed_list_length(&self.blobs) + fixed_list_length(&self.commitments)
            + fixed_list_length(&self.proofs)
    }

    /// Reads the three lists of a sidecar from the front of `buf` and moves
    /// `buf` past them. The lists are not held against each other. A refused
    /// input leaves `buf` where it was.
    pub fn decode_inner(buf: &mut &[u8]) -> (r: Result<BlobTransactionSidecar, DecodeError>)
        ensures
            match parse_sidecar(old(buf)@) {
                Ok((sidecar, k)) => r is Ok && r->Ok_0@ == sidecar && final(buf)@ == old(
                    buf,
                )@.skip(k as int),
                Err(e) => r == Err::<BlobTransactionSidecar, DecodeError>(e) && *final(buf)
                    == *old(buf),
            },
    {
        let input: &[u8] = *buf;
        let mut rest: &[u8] = input;
        let blobs: Vec<Blob> = match decode_fixed_list::<131072>(&mut rest) {
            Ok(v) => v,
            Err(e) => {
                return Err(e);
            },
        };
        let ghost s1 = rest@;
        let commitments: Vec<Bytes48> = match decode_fixed_list::<48>(&mut rest) {
            Ok(v) => v,
            Err(e) => {
                return Err(e);
            },
        };
        let ghost s2 = rest@;
        let proofs: Vec<Bytes48> = match decode_fixed_list::<48>(&mut rest) {
            Ok(v) => v,
            Err(e) => {
                return Err(e);
            },
        };
        proof {
            lemma_parse_fixed_list_canonical(input@, BYTES_PER_BLOB as nat);
            lemma_parse_fixed_list_canonical(s1, BYTES_PER_COMMITMENT as nat);
            lemma_parse_fixed_list_canonical(s2, BYTES_PER_PROOF as nat);
            let k0 = parse_fixed_list(input@, BYTES_PER_BLOB as nat)->Ok_0.1;
            let k1 = parse_fixed_list(s1, BYTES_PER_COMMITMENT as nat)->Ok_0.1;
            let k2 = parse_fixed_list(s2, BYTES_PER_PROOF as nat)->Ok_0.1;
            lemma_advance(input@, k0, k1);
            lemma_advance(input@, k0 + k1, k2);
        }
        *buf = rest;
        Ok(BlobTransactionSidecar { blobs, commitments, proofs })
    }

    /// A heuristic for the size of the sidecar in memory: the width of a
    /// blob, a commitment and a proof, times how many there are of each.
    pub fn size(&self) -> (n: usize)
        requires
            self@.size() <= usize::MAX,
        ensures
            n == self@.size(),
    {
        self.blobs.len() * BYTES_PER_BLOB + self.commitments.len() * BYTES_PER_COMMITMENT
            + self.proofs.len() * BYTES_PER_PROOF
    }
}

/// Reading what was written for a well-formed sidecar gives the sidecar back
/// and stops right behind it.
pub proof fn lemma_parse_sidecar_bytes(sidecar: BlobTransactionSidecarView, rest: Seq<u8>)
    requires
        sidecar.wf(),
    ensures
        parse_sidecar(sidecar.bytes() + rest) == Ok::<
            (BlobTransactionSidecarView, nat),
            DecodeError,
        >((sidecar, sidecar.bytes().len())),
{
    let e0 = str_list_bytes(sidecar.blobs);
    let e1 = str_list_bytes(sidecar.commitments);
    let e2 = str_list_bytes(sidecar.proofs);
    let t2 = e2 + rest;
    let t1 = e1 + t2;
    let t0 = e0 + t1;
    assert(sidecar.bytes() + rest == t0) by {
        lemma_join_assoc(e0 + e1, e2, rest);
        lemma_join_assoc(e0, e1, t2);
    }
    assert(parse_fixed_list(t0, BYTES_PER_BLOB as nat) == Ok::<(Seq<Seq<u8>>, nat), DecodeError>(
        (sidecar.blobs, e0.len()),
    ) && t0.skip(e0.len() as int) == t1) by {
        lemma_parse_fixed_list_bytes(sidecar.blobs, BYTES_PER_BLOB as nat, t1);
        lemma_split_joined(e0, t1);
    }
    assert(parse_fixed_list(t1, BYTES_PER_COMMITMENT as nat) == Ok::<
        (Seq<Seq<u8>>, nat),
        DecodeError,
    >((sidecar.commitments, e1.len())) && t1.skip(e1.len() as int) == t2) by {
        lemma_parse_fixed_list_bytes(sidecar.commitments, BYTES_PER_COMMITMENT as nat, t2);
        lemma_split_joined(e1, t2);
    }
    assert(parse_fixed_list(t2, BYTES_PER_PROOF as nat) == Ok::<(Seq<Seq<u8>>, nat), DecodeError>(
        (sidecar.proofs, e2.len()),
    )) by {
        lemma_parse_fixed_list_bytes(sidecar.proofs, BYTES_PER_PROOF as nat, rest);
    }
}

/// An accepted sidecar is a canonical and well-formed one.
pub proof fn lemma_parse_sidecar_canonical(s: Seq<u8>)
    requires
        parse_sidecar(s) is Ok,
    ensures
        ({
            let (sidecar, k) = parse_sidecar(s)->Ok_0;
            &&& 3 <= k <= s.len()
            &&& sidecar.wf()
            &&& s.take(k as int) == sidecar.bytes()
        }),
{
    let k0 = parse_fixed_list(s, BYTES_PER_BLOB as nat)->Ok_0.1;
    let s1 = s.skip(k0 as int);
    let k1 = parse_fixed_list(s1, BYTES_PER_COMMITMENT as nat)->Ok_0.1;
    let s2 = s1.skip(k1 as int);
    let k2 = parse_fixed_list(s2, BYTES_PER_PROOF as nat)->Ok_0.1;
    lemma_parse_fixed_list_canonical(s, BYTES_PER_BLOB as nat);
    lemma_parse_fixed_list_canonical(s1, BYTES_PER_COMMITMENT as nat);
    lemma_parse_fixed_list_canonical(s2, BYTES_PER_PROOF as nat);
    assert(s.skip(0) =~= s);
    assert(s.take(0) + s.take(k0 as int) =~= s.take(k0 as int));
    lemma_advance(s, 0, k0);
    lemma_advance(s, k0, k1);
    lemma_advance(s, k0 + k1, k2);
}

impl BlobTransactionSidecarView {
    /// A bound on the length of the encoded fields of the sidecar.
    pub open spec fn len_bound(self) -> nat {
        fixed_list_len_bound(self.blobs.len(), BYTES_PER_BLOB as nat) + fixed_list_len_bound(
            self.commitments.len(),
            BYTES_PER_COMMITMENT as nat,
        ) + fixed_list_len_bound(self.proofs.len(), BYTES_PER_PROOF as nat)
    }
}

impl BlobTransactionSidecar {
    /// A bound on the length of the encoded fields of the sidecar, or nothing
    /// where the bound is larger than any machine word. Where there is a
    /// bound, the sidecar can be encoded.
    pub fn length_bound(&self) -> (bound: Option<usize>)
        ensures
            bound == fitting(self@.len_bound()),
            bound is Some ==> self@.bytes().len() <= bound->Some_0,
    {
        fitting_sum(
            fitting_sum(
                fixed_list_length_bound(&self.blobs),
                fixed_list_length_bound(&self.commitments),
            ),
            fixed_list_length_bound(&self.proofs),
        )
    }
}

} // verus!
