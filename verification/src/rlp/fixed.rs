//! Byte strings of a fixed width: addresses, hashes, commitments, blobs.

use crate::rlp::error::DecodeError;
use crate::rlp::string::{
    decode_str_payload, encode_str, lemma_parse_str_bytes, lemma_parse_str_canonical, parse_str,
    str_bytes, str_length,
};
use vstd::prelude::*;

verus! {

/// Reads a byte string of exactly `n` bytes from the start of `s`: its payload
/// and the number of bytes it took.
#[verifier::opaque]
pub open spec fn parse_fixed(s: Seq<u8>, n: nat) -> Result<(Seq<u8>, nat), DecodeError> {
    match parse_str(s) {
        Err(e) => Err(e),
        Ok((payload, k)) => if payload.len() != n {
            Err(DecodeError::UnexpectedLength)
        } else {
            Ok((payload, k))
        },
    }
}

/// Whether two byte sequences hold the same bytes.
pub fn bytes_eq(a: &[u8], b: &[u8]) -> (same: bool)
    ensures
        same == (a@ == b@),
{
    if a.len() != b.len() {
        return false;
    }
    let mut i: usize = 0;
    while i < a.len()
        invariant
            i <= a@.len(),
            a@.len() == b@.len(),
            a@.take(i as int) == b@.take(i as int),
        decreases a@.len() - i,
    {
        if a[i] != b[i] {
            return false;
        }
        i += 1;
        assert(a@.take(i as int) =~= a@.take(i - 1).push(a@[i - 1]));
        assert(b@.take(i as int) =~= b@.take(i - 1).push(b@[i - 1]));
    }
    assert(a@.take(i as int) =~= a@);
    assert(b@.take(i as int) =~= b@);
    true
}

/// The number of bytes that `encode_fixed` writes for `value`.
pub fn fixed_length<const N: usize>(value: &[u8; N]) -> (n: usize)
    requires
        str_bytes(value@).len() <= usize::MAX,
    ensures
        n == str_bytes(value@).len(),
{
    str_length(value.as_slice())
}

/// Appends the encoding of `value`, a byte string of `N` bytes, to `out`.
pub fn encode_fixed<const N: usize>(value: &[u8; N], out: &mut Vec<u8>)
    ensures
        final(out)@ == old(out)@ + str_bytes(value@),
{
    encode_str(value.as_slice(), out)
}

/// Reads a byte string of exactly `N` bytes from the front of `buf` and moves
/// `buf` past it. A refused input leaves `buf` where it was.
pub fn decode_fixed<const N: usize>(buf: &mut &[u8]) -> (r: Result<[u8; N], DecodeError>)
    ensures
        match parse_fixed(old(buf)@, N as nat) {
            Ok((payload, k)) => r is Ok && r->Ok_0@ == payload && final(buf)@ == old(buf)@.skip(
                k as int,
            ),
            Err(e) => r == Err::<[u8; N], DecodeError>(e) && *final(buf) == *old(buf),
        },
{
    proof {
        reveal(parse_fixed);
    }
    let input: &[u8] = *buf;
    let mut rest: &[u8] = input;
    let payload: &[u8] = match decode_str_payload(&mut rest) {
        Ok(p) => p,
        Err(e) => {
            return Err(e);
        },
    };
    if payload.len() != N {
        return Err(DecodeError::UnexpectedLength);
    }
    let mut value: [u8; N] = [0u8; N];
    let mut i: usize = 0;
    while i < N
        invariant
            i <= N,
            payload@.len() == N,
            forall|j: int| 0 <= j < i ==> value@[j] == payload@[j],
        decreases N - i,
    {
        value[i] = payload[i];
        i += 1;
    }
    assert(value@ =~= payload@);
    *buf = rest;
    Ok(value)
}

/// Reading what was written for a byte string of `n` bytes gives it back and
/// stops right behind it.
pub proof fn lemma_parse_fixed_bytes(data: Seq<u8>, rest: Seq<u8>)
    requires
        data.len() <= usize::MAX,
    ensures
        parse_fixed(str_bytes(data) + rest, data.len()) == Ok::<(Seq<u8>, nat), DecodeError>(
            (data, str_bytes(data).len()),
        ),
{
    reveal(parse_fixed);
    lemma_parse_str_bytes(data, rest);
}

/// An accepted fixed-width byte string is a canonical one.
pub proof fn lemma_parse_fixed_canonical(s: Seq<u8>, n: nat)
    requires
        parse_fixed(s, n) is Ok,
    ensures
        ({
            let (payload, k) = parse_fixed(s, n)->Ok_0;
            &&& 1 <= k <= s.len()
            &&& payload.len() == n
            &&& s.take(k as int) == str_bytes(payload)
        }),
{
    reveal(parse_fixed);
    lemma_parse_str_canonical(s);
}

} // verus!
