//! The signature of a transaction.

use crate::rlp::bigendian::{
    be_min, be_value, lemma_be_min_of_value, lemma_be_value_bounds, lemma_be_value_injective,
    lemma_be_value_skip_zeros, pow256,
};
use crate::rlp::error::DecodeError;
use crate::rlp::string::{decode_str_payload, encode_str, lemma_str_bytes_len, str_length};
use crate::rlp::uint::{
    bool_bytes, decode_bool, encode_bool, lemma_bool_bytes_len, lemma_parse_bool_bytes,
    lemma_parse_bool_canonical,
    lemma_parse_uint_bytes, lemma_parse_uint_canonical, lemma_uint_bytes_len, parse_bool,
    parse_uint, uint_bytes,
};
use vstd::prelude::*;
use vstd::slice::slice_subrange;

verus! {

/// A 256-bit unsigned number, held as its 32 big-endian bytes.
#[derive(Clone, Copy, Debug, PartialEq, Eq, Hash, Default)]
pub struct U256 {
    pub be_bytes: [u8; 32],
}

impl View for U256 {
    type V = nat;

    /// The number that the bytes denote.
    open spec fn view(&self) -> nat {
        be_value(self.be_bytes@)
    }
}

impl U256 {
    /// The index of the first non-zero byte, or 32 where all are zero.
    fn leading_zeros(&self) -> (i: usize)
        ensures
            i <= 32,
            be_min(self@) == self.be_bytes@.skip(i as int),
    {
        let mut i: usize = 0;
        while i < 32 && self.be_bytes[i] == 0
            invariant
                i <= 32,
                forall|j: int| 0 <= j < i ==> self.be_bytes@[j] == 0,
            decreases 32 - i,
        {
            i += 1;
        }
        proof {
            lemma_be_value_skip_zeros(self.be_bytes@, i as int);
            lemma_be_min_of_value(self.be_bytes@.skip(i as int));
        }
        i
    }

    /// The number of bytes that `encode` writes.
    pub fn length(&self) -> (n: usize)
        ensures
            n == uint_bytes(self@).len(),
            1 <= n <= 33,
    {
        let start: usize = self.leading_zeros();
        let digits: &[u8] = slice_subrange(self.be_bytes.as_slice(), start, 32);
        proof {
            lemma_str_bytes_len(digits@);
        }
        str_length(digits)
    }

    /// Appends the encoding of the number to `out`.
    pub fn encode(&self, out: &mut Vec<u8>)
        ensures
            final(out)@ == old(out)@ + uint_bytes(self@),
    {
        let start: usize = self.leading_zeros();
        let digits: &[u8] = slice_subrange(self.be_bytes.as_slice(), start, 32);
        encode_str(digits, out);
    }

    /// Reads a number of at most 32 digits from the front of `buf` and moves
    /// `buf` past it. A refused input leaves `buf` where it was.
    pub fn decode(buf: &mut &[u8]) -> (r: Result<U256, DecodeError>)
        ensures
            match parse_uint(old(buf)@, 32) {
                Ok((v, k)) => r is Ok && r->Ok_0@ == v && final(buf)@ == old(buf)@.skip(k as int),
                Err(e) => r == Err::<U256, DecodeError>(e) && *final(buf) == *old(buf),
            },
    {
        proof {
            reveal(parse_uint);
        }
        let input: &[u8] = *buf;
        let mut rest: &[u8] = input;
        let digits: &[u8] = match decode_str_payload(&mut rest) {
            Ok(d) => d,
            Err(e) => {
                return Err(e);
            },
        };
        if digits.len() > 32 {
            return Err(DecodeError::Overflow);
        }
        if digits.len() > 0 && digits[0] == 0 {
            return Err(DecodeError::LeadingZero);
        }
        let pad: usize = 32 - digits.len();
        let mut be_bytes: [u8; 32] = [0u8; 32];
        let mut i: usize = 0;
        while i < digits.len()
            invariant
                i <= digits@.len() <= 32,
                pad == 32 - digits@.len(),
                forall|j: int| 0 <= j < pad ==> be_bytes@[j] == 0,
                forall|j: int| 0 <= j < i ==> be_bytes@[pad + j] == digits@[j],
            decreases digits@.len() - i,
        {
            be_bytes[pad + i] = digits[i];
            i += 1;
        }
        proof {
            assert(be_bytes@.skip(pad as int) =~= digits@);
            lemma_be_value_skip_zeros(be_bytes@, pad as int);
        }
        *buf = rest;
        Ok(U256 { be_bytes })
    }
}

/// Two 256-bit numbers of the same value are the same.
pub proof fn lemma_u256_injective(a: U256, b: U256)
    requires
        a@ == b@,
    ensures
        a == b,
{
    lemma_be_value_injective(a.be_bytes@, b.be_bytes@);
    assert(a.be_bytes =~= b.be_bytes);
}

/// A 256-bit number is below 256 to the power 32.
pub proof fn lemma_u256_bound(a: U256)
    ensures
        a@ < pow256(32),
{
    lemma_be_value_bounds(a.be_bytes@);
}

/// The signature of a transaction: the two numbers `r` and `s`, and the
/// parity of the `y` coordinate of the curve point.
#[derive(Clone, Copy, Debug, PartialEq, Eq, Hash, Default)]
pub struct Signature {
    pub r: U256,
    pub s: U256,
    pub odd_y_parity: bool,
}

/// What a signature holds.
pub struct SignatureView {
    pub r: nat,
    pub s: nat,
    pub odd_y_parity: bool,
}

impl View for Signature {
    type V = SignatureView;

    open spec fn view(&self) -> SignatureView {
        SignatureView { r: self.r@, s: self.s@, odd_y_parity: self.odd_y_parity }
    }
}

/// The encoded fields of a signature: the parity, then `r`, then `s`.
pub open spec fn signature_bytes(sig: SignatureView) -> Seq<u8> {
    bool_bytes(sig.odd_y_parity) + uint_bytes(sig.r) + uint_bytes(sig.s)
}

/// A signature whose numbers fit 256 bits.
pub open spec fn signature_wf(sig: SignatureView) -> bool {
    sig.r < pow256(32) && sig.s < pow256(32)
}

/// Reads the three fields of a signature from the start of `s`: the signature
/// and the number of bytes it took.
pub open spec fn parse_signature(s: Seq<u8>) -> Result<(SignatureView, nat), DecodeError> {
    match parse_bool(s) {
        Err(e) => Err(e),
        Ok((odd_y_parity, k0)) => match parse_uint(s.skip(k0 as int), 32) {
            Err(e) => Err(e),
            Ok((r, k1)) => match parse_uint(s.skip(k0 as int).skip(k1 as int), 32) {
                Err(e) => Err(e),
                Ok((s_value, k2)) => Ok(
                    (SignatureView { r, s: s_value, odd_y_parity }, k0 + k1 + k2),
                ),
            },
        },
    }
}

impl Signature {
    /// The number of bytes that `encode` writes.
    pub fn payload_len(&self) -> (n: usize)
        ensures
            n == signature_bytes(self@).len(),
            3 <= n <= 67,
    {
        proof {
            lemma_bool_bytes_len(self.odd_y_parity);
        }
        1 + self.r.length() + self.s.length()
    }

    /// Appends the three encoded fields to `out`.
    pub fn encode(&self, out: &mut Vec<u8>)
        ensures
            final(out)@ == old(out)@ + signature_bytes(self@),
    {
        encode_bool(self.odd_y_parity, out);
        self.r.encode(out);
        self.s.encode(out);
        assert(out@ =~= old(out)@ + signature_bytes(self@));
    }

    /// Reads the three fields of a signature from the front of `buf` and moves
    /// `buf` past them. A refused input leaves `buf` where it was.
    pub fn decode(buf: &mut &[u8]) -> (r: Result<Signature, DecodeError>)
        ensures
            match parse_signature(old(buf)@) {
                Ok((sig, k)) => r is Ok && r->Ok_0@ == sig && final(buf)@ == old(buf)@.skip(
                    k as int,
                ),
                Err(e) => r == Err::<Signature, DecodeError>(e) && *final(buf) == *old(buf),
            },
    {
        let input: &[u8] = *buf;
        let mut rest: &[u8] = input;
        let odd_y_parity: bool = match decode_bool(&mut rest) {
            Ok(b) => b,
            Err(e) => {
                return Err(e);
            },
        };
        let ghost s1 = rest@;
        let r: U256 = match U256::decode(&mut rest) {
            Ok(v) => v,
            Err(e) => {
                return Err(e);
            },
        };
        let ghost s2 = rest@;
        let s: U256 = match U256::decode(&mut rest) {
            Ok(v) => v,
            Err(e) => {
                return Err(e);
            },
        };
        proof {
            lemma_parse_bool_canonical(input@);
            lemma_parse_uint_canonical(s1, 32);
            lemma_parse_uint_canonical(s2, 32);
            let k = parse_signature(input@)->Ok_0.1;
            assert(rest@ =~= input@.skip(k as int));
        }
        *buf = rest;
        Ok(Signature { r, s, odd_y_parity })
    }
}

/// Reading what `signature_bytes` wrote gives the signature back and stops
/// right behind it.
pub proof fn lemma_parse_signature_bytes(sig: SignatureView, rest: Seq<u8>)
    requires
        signature_wf(sig),
    ensures
        parse_signature(signature_bytes(sig) + rest) == Ok::<(SignatureView, nat), DecodeError>(
            (sig, signature_bytes(sig).len()),
        ),
        3 <= signature_bytes(sig).len() <= 67,
{
    let pb = bool_bytes(sig.odd_y_parity);
    let rb = uint_bytes(sig.r);
    let sb = uint_bytes(sig.s);
    let s = signature_bytes(sig) + rest;
    let s1 = rb + (sb + rest);
    let s2 = sb + rest;
    lemma_bool_bytes_len(sig.odd_y_parity);
    lemma_uint_bytes_len(sig.r, 32);
    lemma_uint_bytes_len(sig.s, 32);
    assert(parse_bool(s) == Ok::<(bool, nat), DecodeError>((sig.odd_y_parity, pb.len()))) by {
        assert(s =~= pb + s1);
        lemma_parse_bool_bytes(sig.odd_y_parity, s1);
    }
    assert(s.skip(pb.len() as int) == s1) by {
        assert(s =~= pb + s1);
        assert((pb + s1).skip(pb.len() as int) =~= s1);
    }
    assert(parse_uint(s1, 32) == Ok::<(nat, nat), DecodeError>((sig.r, rb.len()))) by {
        lemma_parse_uint_bytes(sig.r, 32, s2);
    }
    assert(s1.skip(rb.len() as int) == s2) by {
        assert(s1.skip(rb.len() as int) =~= s2);
    }
    assert(parse_uint(s2, 32) == Ok::<(nat, nat), DecodeError>((sig.s, sb.len()))) by {
        lemma_parse_uint_bytes(sig.s, 32, rest);
    }
}

/// An accepted signature is a canonical one.
pub proof fn lemma_parse_signature_canonical(s: Seq<u8>)
    requires
        parse_signature(s) is Ok,
    ensures
        ({
            let (sig, k) = parse_signature(s)->Ok_0;
            &&& 3 <= k <= s.len()
            &&& signature_wf(sig)
            &&& s.take(k as int) == signature_bytes(sig)
        }),
{
    let (b, k0) = parse_bool(s)->Ok_0;
    let s1 = s.skip(k0 as int);
    let (r, k1) = parse_uint(s1, 32)->Ok_0;
    let s2 = s1.skip(k1 as int);
    let (sv, k2) = parse_uint(s2, 32)->Ok_0;
    lemma_parse_bool_canonical(s);
    lemma_parse_uint_canonical(s1, 32);
    lemma_parse_uint_canonical(s2, 32);
    assert(s.take((k0 + k1 + k2) as int) == bool_bytes(b) + uint_bytes(r) + uint_bytes(sv)) by {
        assert(s.take((k0 + k1 + k2) as int) =~= s.take(k0 as int) + s1.take(k1 as int)
            + s2.take(k2 as int));
    }
}

/// Every signature is well formed: its two numbers fit 256 bits. Its encoded
/// fields take at most 67 bytes.
pub proof fn lemma_signature_is_wf(signature: Signature)
    ensures
        signature_wf(signature@),
        3 <= signature_bytes(signature@).len() <= 67,
{
    lemma_u256_bound(signature.r);
    lemma_u256_bound(signature.s);
    lemma_parse_signature_bytes(signature@, Seq::empty());
}

/// Two signatures that hold the same values are the same.
pub proof fn lemma_signature_injective(a: Signature, b: Signature)
    requires
        a@ == b@,
    ensures
        a == b,
{
    lemma_u256_injective(a.r, b.r);
    lemma_u256_injective(a.s, b.s);
}

} // verus!
