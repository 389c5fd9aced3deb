//! The header that precedes every byte string and every list.

use crate::rlp::bigendian::{
    be_len, be_min, be_value, lemma_be_min_len_bound, lemma_be_min_of_value, lemma_be_min_props,
    lemma_be_value_of_min, lemma_pow256_values, push_be, read_be,
};
use crate::rlp::error::DecodeError;
use vstd::prelude::*;
use vstd::slice::slice_subrange;

verus! {

/// First byte of the empty byte string; short strings count up from it.
pub const EMPTY_STRING_CODE: u8 = 0x80;

/// First byte of the empty list; short lists count up from it.
pub const EMPTY_LIST_CODE: u8 = 0xC0;

/// Payloads of this length or more carry their length in the long form.
pub const LONG_FORM_THRESHOLD: usize = 56;

/// What a header announces: the kind of value and the length of its payload.
#[derive(Clone, Copy, Debug, PartialEq, Eq)]
pub struct Header {
    /// A list if set, a byte string otherwise.
    pub list: bool,
    /// The number of payload bytes that follow the header.
    pub payload_length: usize,
}

/// The bytes of the header of a value of `len` payload bytes.
pub open spec fn header_bytes(list: bool, len: nat) -> Seq<u8> {
    let code: nat = if list {
        0xC0
    } else {
        0x80
    };
    if len < 56 {
        seq![(code + len) as u8]
    } else {
        seq![(code + 55 + be_min(len).len()) as u8] + be_min(len)
    }
}

/// Reads a long-form length of `n` digits that follows the first byte of `s`.
pub open spec fn parse_long_header(s: Seq<u8>, list: bool, n: nat) -> Result<
    (Header, nat),
    DecodeError,
> {
    if s.len() - 1 < n {
        Err(DecodeError::InputTooShort)
    } else {
        let digits = s.subrange(1, 1 + n as int);
        if digits[0] == 0 {
            Err(DecodeError::LeadingZero)
        } else if be_value(digits) > usize::MAX {
            Err(DecodeError::Custom("Input too big"))
        } else if be_value(digits) < 56 {
            Err(DecodeError::NonCanonicalSize)
        } else if s.len() - 1 - n < be_value(digits) {
            Err(DecodeError::InputTooShort)
        } else {
            Ok((Header { list, payload_length: be_value(digits) as usize }, 1 + n))
        }
    }
}

/// Reads the header at the start of `s`: the header and the number of bytes it
/// took. A single byte below `0x80` is its own payload: its header takes no
/// bytes. A header is accepted only if the whole payload follows it.
#[verifier::opaque]
pub open spec fn parse_header(s: Seq<u8>) -> Result<(Header, nat), DecodeError> {
    if s.len() == 0 {
        Err(DecodeError::InputTooShort)
    } else if s[0] < 0x80 {
        Ok((Header { list: false, payload_length: 1 }, 0))
    } else if s[0] < 0xB8 {
        let len = (s[0] - 0x80) as usize;
        if len == 1 && s.len() < 2 {
            Err(DecodeError::InputTooShort)
        } else if len == 1 && s[1] < 0x80 {
            Err(DecodeError::NonCanonicalSingleByte)
        } else if s.len() - 1 < len {
            Err(DecodeError::InputTooShort)
        } else {
            Ok((Header { list: false, payload_length: len }, 1))
        }
    } else if s[0] < 0xC0 {
        parse_long_header(s, false, (s[0] - 0xB7) as nat)
    } else if s[0] < 0xF8 {
        let len = (s[0] - 0xC0) as usize;
        if s.len() - 1 < len {
            Err(DecodeError::InputTooShort)
        } else {
            Ok((Header { list: true, payload_length: len }, 1))
        }
    } else {
        parse_long_header(s, true, (s[0] - 0xF7) as nat)
    }
}

impl Header {
    /// The bytes of this header.
    pub open spec fn bytes(self) -> Seq<u8> {
        header_bytes(self.list, self.payload_length as nat)
    }

    /// The number of bytes that `encode` writes.
    pub fn length(&self) -> (n: usize)
        ensures
            n == self.bytes().len(),
            1 <= n <= 9,
    {
        proof {
            lemma_header_bytes_len(self.list, self.payload_length as nat);
        }
        if self.payload_length < LONG_FORM_THRESHOLD {
            1
        } else {
            1 + be_len(self.payload_length as u128)
        }
    }

    /// Appends this header to `out`.
    pub fn encode(&self, out: &mut Vec<u8>)
        ensures
            final(out)@ == old(out)@ + self.bytes(),
    {
        let code: u8 = if self.list {
            EMPTY_LIST_CODE
        } else {
            EMPTY_STRING_CODE
        };
        proof {
            lemma_header_bytes_len(self.list, self.payload_length as nat);
        }
        if self.payload_length < LONG_FORM_THRESHOLD {
            out.push(code + self.payload_length as u8);
            assert(out@ =~= old(out)@ + self.bytes());
        } else {
            let n: usize = be_len(self.payload_length as u128);
            out.push(code + 55 + n as u8);
            push_be(self.payload_length as u128, out);
            assert(out@ =~= old(out)@ + self.bytes());
        }
    }

    /// Reads a header from the front of `buf` and moves `buf` past it. A
    /// refused input leaves `buf` where it was.
    pub fn decode(buf: &mut &[u8]) -> (r: Result<Header, DecodeError>)
        ensures
            match parse_header(old(buf)@) {
                Ok((h, k)) => r == Ok::<Header, DecodeError>(h) && final(buf)@ == old(buf)@.skip(
                    k as int,
                ),
                Err(e) => r == Err::<Header, DecodeError>(e) && *final(buf) == *old(buf),
            },
    {
        proof {
            reveal(parse_header);
        }
        let input: &[u8] = *buf;
        if input.len() == 0 {
            return Err(DecodeError::InputTooShort);
        }
        let b: u8 = input[0];
        if b < 0x80 {
            assert(input@.skip(0) =~= input@);
            Ok(Header { list: false, payload_length: 1 })
        } else if b < 0xB8 {
            let len: usize = (b - 0x80) as usize;
            if len == 1 {
                if input.len() < 2 {
                    return Err(DecodeError::InputTooShort);
                }
                if input[1] < 0x80 {
                    return Err(DecodeError::NonCanonicalSingleByte);
                }
            }
            if input.len() - 1 < len {
                return Err(DecodeError::InputTooShort);
            }
            *buf = slice_subrange(input, 1, input.len());
            Ok(Header { list: false, payload_length: len })
        } else if b < 0xC0 {
            Self::decode_long(buf, false, (b - 0xB7) as usize)
        } else if b < 0xF8 {
            let len: usize = (b - 0xC0) as usize;
            if input.len() - 1 < len {
                return Err(DecodeError::InputTooShort);
            }
            *buf = slice_subrange(input, 1, input.len());
            Ok(Header { list: true, payload_length: len })
        } else {
            Self::decode_long(buf, true, (b - 0xF7) as usize)
        }
    }

    /// Reads the `n` length digits behind the first byte of `buf`.
    fn decode_long(buf: &mut &[u8], list: bool, n: usize) -> (r: Result<Header, DecodeError>)
        requires
            old(buf)@.len() >= 1,
            1 <= n <= 8,
        ensures
            match parse_long_header(old(buf)@, list, n as nat) {
                Ok((h, k)) => r == Ok::<Header, DecodeError>(h) && final(buf)@ == old(buf)@.skip(
                    k as int,
                ),
                Err(e) => r == Err::<Header, DecodeError>(e) && *final(buf) == *old(buf),
            },
    {
        let input: &[u8] = *buf;
        if input.len() - 1 < n {
            return Err(DecodeError::InputTooShort);
        }
        let digits: &[u8] = slice_subrange(input, 1, 1 + n);
        if digits[0] == 0 {
            return Err(DecodeError::LeadingZero);
        }
        let value: u128 = read_be(digits);
        if value > usize::MAX as u128 {
            return Err(DecodeError::Custom("Input too big"));
        }
        let len: usize = value as usize;
        if len < LONG_FORM_THRESHOLD {
            return Err(DecodeError::NonCanonicalSize);
        }
        if input.len() - 1 - n < len {
            return Err(DecodeError::InputTooShort);
        }
        *buf = slice_subrange(input, 1 + n, input.len());
        Ok(Header { list, payload_length: len })
    }
}

/// A header takes one byte, or one byte and the digits of the length.
pub proof fn lemma_header_bytes_len(list: bool, len: nat)
    ensures
        len < 56 ==> header_bytes(list, len).len() == 1,
        len >= 56 ==> header_bytes(list, len).len() == 1 + be_min(len).len(),
        len <= usize::MAX ==> 1 <= header_bytes(list, len).len() <= 9,
        len <= usize::MAX && len >= 56 ==> 1 <= be_min(len).len() <= 8,
{
    lemma_be_min_props(len);
    lemma_pow256_values();
    if len <= usize::MAX {
        lemma_be_min_len_bound(len, 8);
    }
}

/// Reading what `header_bytes` wrote gives the header back, provided the
/// payload follows. The one-byte string below `0x80` is the exception: it is
/// written without a header.
pub proof fn lemma_parse_header_bytes(list: bool, len: usize, rest: Seq<u8>)
    requires
        rest.len() >= len,
        list || len != 1 || rest[0] >= 0x80,
    ensures
        parse_header(header_bytes(list, len as nat) + rest) == Ok::<(Header, nat), DecodeError>(
            (Header { list, payload_length: len }, header_bytes(list, len as nat).len()),
        ),
{
    reveal(parse_header);
    let hb = header_bytes(list, len as nat);
    let s = hb + rest;
    lemma_header_bytes_len(list, len as nat);
    if len < 56 {
        assert(s[0] == hb[0]);
        if len == 1 {
            assert(s[1] == rest[0]);
        }
    } else {
        let digits = be_min(len as nat);
        let n = digits.len();
        assert(s[0] == hb[0]);
        assert(s.subrange(1, 1 + n as int) =~= digits);
        lemma_be_min_props(len as nat);
        lemma_be_value_of_min(len as nat);
    }
}

/// A byte below `0x80` is read as a one-byte string without a header.
pub proof fn lemma_parse_header_single(s: Seq<u8>)
    requires
        s.len() > 0,
        s[0] < 0x80,
    ensures
        parse_header(s) == Ok::<(Header, nat), DecodeError>(
            (Header { list: false, payload_length: 1 }, 0),
        ),
{
    reveal(parse_header);
}

/// An accepted header is a canonical one: its bytes are those that
/// `header_bytes` writes for it, and its payload follows in full.
pub proof fn lemma_parse_header_canonical(s: Seq<u8>)
    requires
        parse_header(s) is Ok,
    ensures
        ({
            let (h, k) = parse_header(s)->Ok_0;
            &&& 1 <= k + h.payload_length <= s.len()
            &&& k <= 9
            &&& k == 0 ==> s[0] < 0x80 && h == (Header { list: false, payload_length: 1 })
            &&& k > 0 ==> s[0] >= 0x80
            &&& k > 0 ==> s.take(k as int) == h.bytes()
            &&& k > 0 && !h.list && h.payload_length == 1 ==> s[1] >= 0x80
        }),
{
    reveal(parse_header);
    let (h, k) = parse_header(s)->Ok_0;
    if s[0] < 0x80 {
    } else if s[0] < 0xB8 || (0xC0 <= s[0] && s[0] < 0xF8) {
        assert(s.take(1) =~= h.bytes());
    } else {
        let n: nat = if s[0] < 0xC0 {
            (s[0] - 0xB7) as nat
        } else {
            (s[0] - 0xF7) as nat
        };
        let digits = s.subrange(1, 1 + n as int);
        lemma_be_min_of_value(digits);
        assert(s.take(k as int) =~= seq![s[0]] + digits);
        assert(s.take(k as int) =~= h.bytes());
    }
}

} // verus!
