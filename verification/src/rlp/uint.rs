//! Unsigned integers and booleans: a number is the byte string of its digits.

use crate::rlp::bigendian::{
    be_len, be_min, be_value, lemma_be_min_len_bound, lemma_be_min_of_value, lemma_be_min_props,
    lemma_be_value_bounds, lemma_be_value_of_min, lemma_pow256_monotonic, lemma_pow256_values,
    pow256, push_be, read_be,
};
use crate::rlp::error::DecodeError;
use crate::rlp::string::{
    decode_str_payload, lemma_parse_str_bytes, lemma_parse_str_canonical, lemma_str_bytes_len,
    parse_str, str_bytes,
};
use vstd::prelude::*;

verus! {

/// The encoding of the number `n`.
pub open spec fn uint_bytes(n: nat) -> Seq<u8> {
    str_bytes(be_min(n))
}

/// Reads a number of at most `width` digits from the start of `s`: the number
/// and the count of bytes it took.
#[verifier::opaque]
pub open spec fn parse_uint(s: Seq<u8>, width: nat) -> Result<(nat, nat), DecodeError> {
    match parse_str(s) {
        Err(e) => Err(e),
        Ok((digits, k)) => if digits.len() > width {
            Err(DecodeError::Overflow)
        } else if digits.len() > 0 && digits[0] == 0 {
            Err(DecodeError::LeadingZero)
        } else {
            Ok((be_value(digits), k))
        },
    }
}

/// The encoding of a boolean: that of 1 or of 0.
pub open spec fn bool_bytes(b: bool) -> Seq<u8> {
    uint_bytes(
        if b {
            1
        } else {
            0
        },
    )
}

/// Reads a boolean from the start of `s`.
#[verifier::opaque]
pub open spec fn parse_bool(s: Seq<u8>) -> Result<(bool, nat), DecodeError> {
    match parse_uint(s, 1) {
        Err(e) => Err(e),
        Ok((v, k)) => if v == 0 {
            Ok((false, k))
        } else if v == 1 {
            Ok((true, k))
        } else {
            Err(DecodeError::Custom("invalid bool value, must be 0 or 1"))
        },
    }
}

/// The number of bytes that `encode_uint` writes for `n`.
pub fn uint_length(n: u128) -> (len: usize)
    ensures
        len == uint_bytes(n as nat).len(),
        1 <= len <= 17,
{
    proof {
        lemma_be_min_props(n as nat);
        lemma_str_bytes_len(be_min(n as nat));
        reveal_with_fuel(be_min, 2);
    }
    if n < 0x80 {
        1
    } else {
        1 + be_len(n)
    }
}

/// Appends the encoding of `n` to `out`.
pub fn encode_uint(n: u128, out: &mut Vec<u8>)
    ensures
        final(out)@ == old(out)@ + uint_bytes(n as nat),
{
    proof {
        lemma_be_min_props(n as nat);
        reveal_with_fuel(be_min, 2);
    }
    if n == 0 {
        out.push(0x80);
        assert(out@ =~= old(out)@ + uint_bytes(n as nat));
    } else if n < 0x80 {
        out.push(n as u8);
        assert(be_min(n as nat) =~= seq![n as u8]);
        assert(out@ =~= old(out)@ + uint_bytes(n as nat));
    } else {
        let k: usize = be_len(n);
        out.push(0x80 + k as u8);
        push_be(n, out);
        assert(be_min(n as nat).len() == 1 ==> be_min(n as nat)[0] == n as u8);
        assert(out@ =~= old(out)@ + uint_bytes(n as nat));
    }
}

/// Reads a number of at most `width` digits from the front of `buf` and moves
/// `buf` past it. A refused input leaves `buf` where it was.
pub fn decode_uint(buf: &mut &[u8], width: usize) -> (r: Result<u128, DecodeError>)
    requires
        width <= 16,
    ensures
        match parse_uint(old(buf)@, width as nat) {
            Ok((v, k)) => r == Ok::<u128, DecodeError>(v as u128) && v < pow256(width as nat)
                && final(buf)@ == old(buf)@.skip(k as int),
            Err(e) => r == Err::<u128, DecodeError>(e) && *final(buf) == *old(buf),
        },
{
    proof {
        reveal(parse_uint);
    }
    let input: &[u8] = *buf;
    let mut rest: &[u8] = input;
    let digits: &[u8] = match decode_str_payload(&mut rest) {
        Ok(d) => d,
        Err(e) => {
            return Err(e);
        },
    };
    if digits.len() > width {
        return Err(DecodeError::Overflow);
    }
    if digits.len() > 0 && digits[0] == 0 {
        return Err(DecodeError::LeadingZero);
    }
    let v: u128 = read_be(digits);
    proof {
        lemma_be_value_bounds(digits@);
        lemma_pow256_monotonic(digits@.len(), width as nat);
    }
    *buf = rest;
    Ok(v)
}

/// Appends the encoding of `n` to `out`.
pub fn encode_u64(n: u64, out: &mut Vec<u8>)
    ensures
        final(out)@ == old(out)@ + uint_bytes(n as nat),
{
    encode_uint(n as u128, out)
}

/// Reads a 64-bit number from the front of `buf` and moves `buf` past it. A
/// refused input leaves `buf` where it was.
pub fn decode_u64(buf: &mut &[u8]) -> (r: Result<u64, DecodeError>)
    ensures
        match parse_uint(old(buf)@, 8) {
            Ok((v, k)) => r == Ok::<u64, DecodeError>(v as u64) && v <= u64::MAX && final(buf)@
                == old(buf)@.skip(k as int),
            Err(e) => r == Err::<u64, DecodeError>(e) && *final(buf) == *old(buf),
        },
{
    proof {
        lemma_pow256_values();
    }
    match decode_uint(buf, 8) {
        Ok(v) => Ok(v as u64),
        Err(e) => Err(e),
    }
}

/// Reads a 128-bit number from the front of `buf` and moves `buf` past it. A
/// refused input leaves `buf` where it was.
pub fn decode_u128(buf: &mut &[u8]) -> (r: Result<u128, DecodeError>)
    ensures
        match parse_uint(old(buf)@, 16) {
            Ok((v, k)) => r == Ok::<u128, DecodeError>(v as u128) && v <= u128::MAX
                && final(buf)@ == old(buf)@.skip(k as int),
            Err(e) => r == Err::<u128, DecodeError>(e) && *final(buf) == *old(buf),
        },
{
    proof {
        lemma_pow256_values();
    }
    decode_uint(buf, 16)
}

/// Appends the encoding of `b` to `out`.
pub fn encode_bool(b: bool, out: &mut Vec<u8>)
    ensures
        final(out)@ == old(out)@ + bool_bytes(b),
{
    if b {
        encode_uint(1, out)
    } else {
        encode_uint(0, out)
    }
}

/// Reads a boolean from the front of `buf` and moves `buf` past it. A refused
/// input leaves `buf` where it was.
pub fn decode_bool(buf: &mut &[u8]) -> (r: Result<bool, DecodeError>)
    ensures
        match parse_bool(old(buf)@) {
            Ok((b, k)) => r == Ok::<bool, DecodeError>(b) && final(buf)@ == old(buf)@.skip(
                k as int,
            ),
            Err(e) => r == Err::<bool, DecodeError>(e) && *final(buf) == *old(buf),
        },
{
    proof {
        reveal(parse_bool);
    }
    let input: &[u8] = *buf;
    let mut rest: &[u8] = input;
    let v: u128 = match decode_uint(&mut rest, 1) {
        Ok(v) => v,
        Err(e) => {
            return Err(e);
        },
    };
    proof {
        lemma_pow256_values();
    }
    if v == 0 {
        *buf = rest;
        Ok(false)
    } else if v == 1 {
        *buf = rest;
        Ok(true)
    } else {
        Err(DecodeError::Custom("invalid bool value, must be 0 or 1"))
    }
}

/// A number of at most `width` digits is written in at most `width + 1` bytes.
pub proof fn lemma_uint_bytes_len(n: nat, width: nat)
    requires
        n < pow256(width),
        width <= 55,
    ensures
        1 <= uint_bytes(n).len() <= width + 1,
{
    lemma_be_min_len_bound(n, width);
    lemma_str_bytes_len(be_min(n));
}

/// A boolean is written in one byte.
pub proof fn lemma_bool_bytes_len(b: bool)
    ensures
        bool_bytes(b).len() == 1,
{
    reveal_with_fuel(be_min, 2);
    lemma_str_bytes_len(be_min(1));
    lemma_str_bytes_len(be_min(0));
}

/// Reading what `uint_bytes` wrote gives the number back and stops right
/// behind it.
pub proof fn lemma_parse_uint_bytes(n: nat, width: nat, rest: Seq<u8>)
    requires
        n < pow256(width),
        width <= 55,
    ensures
        parse_uint(uint_bytes(n) + rest, width) == Ok::<(nat, nat), DecodeError>(
            (n, uint_bytes(n).len()),
        ),
{
    reveal(parse_uint);
    lemma_be_min_len_bound(n, width);
    lemma_be_min_props(n);
    lemma_be_value_of_min(n);
    lemma_parse_str_bytes(be_min(n), rest);
}

/// An accepted number is a canonical one: the bytes that were read are those
/// that `uint_bytes` writes for it.
pub proof fn lemma_parse_uint_canonical(s: Seq<u8>, width: nat)
    requires
        parse_uint(s, width) is Ok,
    ensures
        ({
            let (v, k) = parse_uint(s, width)->Ok_0;
            &&& 1 <= k <= s.len()
            &&& v < pow256(width)
            &&& s.take(k as int) == uint_bytes(v)
        }),
{
    reveal(parse_uint);
    lemma_parse_str_canonical(s);
    let (digits, k) = parse_str(s)->Ok_0;
    lemma_be_min_of_value(digits);
    lemma_be_value_bounds(digits);
    lemma_pow256_monotonic(digits.len(), width);
}

/// Reading what `bool_bytes` wrote gives the boolean back.
pub proof fn lemma_parse_bool_bytes(b: bool, rest: Seq<u8>)
    ensures
        parse_bool(bool_bytes(b) + rest) == Ok::<(bool, nat), DecodeError>(
            (b, bool_bytes(b).len()),
        ),
{
    reveal(parse_bool);
    lemma_pow256_values();
    lemma_parse_uint_bytes(
        if b {
            1
        } else {
            0
        },
        1,
        rest,
    );
}

/// An accepted boolean is a canonical one.
pub proof fn lemma_parse_bool_canonical(s: Seq<u8>)
    requires
        parse_bool(s) is Ok,
    ensures
        ({
            let (b, k) = parse_bool(s)->Ok_0;
            &&& 1 <= k <= s.len()
            &&& s.take(k as int) == bool_bytes(b)
        }),
{
    reveal(parse_bool);
    lemma_parse_uint_canonical(s, 1);
}

} // verus!
