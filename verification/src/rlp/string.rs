//! Byte strings.

use crate::rlp::error::DecodeError;
use crate::rlp::header::{
    header_bytes, lemma_header_bytes_len, lemma_parse_header_bytes, lemma_parse_header_canonical,
    lemma_parse_header_single,
    parse_header, Header,
};
use vstd::prelude::*;
use vstd::slice::slice_subrange;

verus! {

/// The encoding of the byte string `data`: a single byte below `0x80` stands
/// for itself, anything else follows its header.
pub open spec fn str_bytes(data: Seq<u8>) -> Seq<u8> {
    if data.len() == 1 && data[0] < 0x80 {
        data
    } else {
        header_bytes(false, data.len()) + data
    }
}

/// Reads a byte string from the start of `s`: its payload and the number of
/// bytes it took.
#[verifier::opaque]
pub open spec fn parse_str(s: Seq<u8>) -> Result<(Seq<u8>, nat), DecodeError> {
    match parse_header(s) {
        Err(e) => Err(e),
        Ok((h, k)) => if h.list {
            Err(DecodeError::UnexpectedList)
        } else {
            Ok((s.subrange(k as int, k + h.payload_length), k + h.payload_length as nat))
        },
    }
}

/// Appends a copy of `data` to `out`.
pub fn push_all(data: &[u8], out: &mut Vec<u8>)
    ensures
        final(out)@ == old(out)@ + data@,
{
    let mut i: usize = 0;
    while i < data.len()
        invariant
            i <= data@.len(),
            out@ == old(out)@ + data@.take(i as int),
        decreases data@.len() - i,
    {
        out.push(data[i]);
        i += 1;
        assert(out@ =~= old(out)@ + data@.take(i as int));
    }
    assert(data@.take(i as int) =~= data@);
}

/// The number of bytes that `encode_str` writes for `data`.
pub fn str_length(data: &[u8]) -> (n: usize)
    requires
        str_bytes(data@).len() <= usize::MAX,
    ensures
        n == str_bytes(data@).len(),
{
    if data.len() == 1 && data[0] < 0x80 {
        1
    } else {
        let h = Header { list: false, payload_length: data.len() };
        h.length() + data.len()
    }
}

/// Appends the encoding of the byte string `data` to `out`.
pub fn encode_str(data: &[u8], out: &mut Vec<u8>)
    ensures
        final(out)@ == old(out)@ + str_bytes(data@),
{
    if data.len() == 1 && data[0] < 0x80 {
        out.push(data[0]);
        assert(out@ =~= old(out)@ + str_bytes(data@));
    } else {
        let h = Header { list: false, payload_length: data.len() };
        h.encode(out);
        push_all(data, out);
        assert(out@ =~= old(out)@ + str_bytes(data@));
    }
}

/// Reads the header of a byte string and hands out its payload, moving `buf`
/// past it. A refused input leaves `buf` where it was.
pub fn decode_str_payload<'a>(buf: &mut &'a [u8]) -> (r: Result<&'a [u8], DecodeError>)
    ensures
        match parse_str(old(buf)@) {
            Ok((payload, k)) => r is Ok && r->Ok_0@ == payload && final(buf)@ == old(buf)@.skip(
                k as int,
            ),
            Err(e) => r == Err::<&[u8], DecodeError>(e) && *final(buf) == *old(buf),
        },
{
    proof {
        reveal(parse_str);
    }
    let input: &[u8] = *buf;
    let mut rest: &[u8] = input;
    let h = match Header::decode(&mut rest) {
        Ok(h) => h,
        Err(e) => {
            return Err(e);
        },
    };
    if h.list {
        return Err(DecodeError::UnexpectedList);
    }
    proof {
        lemma_parse_header_canonical(input@);
    }
    let payload: &[u8] = slice_subrange(rest, 0, h.payload_length);
    *buf = slice_subrange(rest, h.payload_length, rest.len());
    proof {
        let k = parse_header(input@)->Ok_0.1;
        assert(payload@ =~= input@.subrange(k as int, k + h.payload_length));
        assert(final(buf)@ =~= input@.skip(k + h.payload_length));
    }
    Ok(payload)
}

/// Reads a byte string from the front of `buf` and moves `buf` past it. A
/// refused input leaves `buf` where it was.
pub fn decode_str(buf: &mut &[u8]) -> (r: Result<Vec<u8>, DecodeError>)
    ensures
        match parse_str(old(buf)@) {
            Ok((payload, k)) => r is Ok && r->Ok_0@ == payload && final(buf)@ == old(buf)@.skip(
                k as int,
            ),
            Err(e) => r == Err::<Vec<u8>, DecodeError>(e) && *final(buf) == *old(buf),
        },
{
    match decode_str_payload(buf) {
        Ok(payload) => {
            let mut data: Vec<u8> = Vec::new();
            push_all(payload, &mut data);
            assert(data@ =~= payload@);
            Ok(data)
        },
        Err(e) => Err(e),
    }
}

/// The encoding of a byte string is its payload and at most nine bytes more.
pub proof fn lemma_str_bytes_len(data: Seq<u8>)
    ensures
        data.len() <= usize::MAX ==> data.len() <= str_bytes(data).len() <= data.len() + 9,
        str_bytes(data).len() >= 1,
        data.len() < 56 && !(data.len() == 1 && data[0] < 0x80) ==> str_bytes(data).len()
            == data.len() + 1,
{
    lemma_header_bytes_len(false, data.len());
}

/// Reading what `str_bytes` wrote gives the byte string back and stops right
/// behind it.
pub proof fn lemma_parse_str_bytes(data: Seq<u8>, rest: Seq<u8>)
    requires
        data.len() <= usize::MAX,
    ensures
        parse_str(str_bytes(data) + rest) == Ok::<(Seq<u8>, nat), DecodeError>(
            (data, str_bytes(data).len()),
        ),
{
    reveal(parse_str);
    let s = str_bytes(data) + rest;
    if data.len() == 1 && data[0] < 0x80 {
        assert(s[0] == data[0]);
        lemma_parse_header_single(s);
        assert(s.subrange(0, 1) =~= data);
    } else {
        let hb = header_bytes(false, data.len());
        assert(s =~= hb + (data + rest));
        if data.len() == 1 {
            assert((data + rest)[0] == data[0]);
        }
        lemma_parse_header_bytes(false, data.len() as usize, data + rest);
        assert(s.subrange(hb.len() as int, (hb.len() + data.len()) as int) =~= data);
    }
}

/// An accepted byte string is a canonical one: the bytes that were read are
/// those that `str_bytes` writes for the payload.
pub proof fn lemma_parse_str_canonical(s: Seq<u8>)
    requires
        parse_str(s) is Ok,
    ensures
        ({
            let (payload, k) = parse_str(s)->Ok_0;
            &&& k <= s.len()
            &&& k >= 1
            &&& payload.len() <= usize::MAX
            &&& s.take(k as int) == str_bytes(payload)
        }),
{
    reveal(parse_str);
    lemma_parse_header_canonical(s);
    let (h, hk) = parse_header(s)->Ok_0;
    let (payload, k) = parse_str(s)->Ok_0;
    if hk == 0 {
        assert(s.take(1) =~= payload);
    } else {
        assert(s.take(k as int) =~= s.take(hk as int) + payload);
        if payload.len() == 1 {
            assert(payload[0] == s[1]);
        }
    }
}

} // verus!
