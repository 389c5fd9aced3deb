//! The recipient of a transaction: an account, or none when a contract is
//! created.

use crate::primitives::Address;
use crate::rlp::error::DecodeError;
use crate::rlp::fixed::{
    decode_fixed, encode_fixed, lemma_parse_fixed_bytes, lemma_parse_fixed_canonical,
    parse_fixed,
};
use crate::rlp::header::EMPTY_STRING_CODE;
use crate::rlp::string::{lemma_str_bytes_len, str_bytes};
use vstd::prelude::*;
use vstd::slice::slice_subrange;

verus! {

/// Whether a transaction calls an account or creates a contract.
#[derive(Clone, Copy, Debug, PartialEq, Eq, Hash, Default)]
pub enum TransactionKind {
    /// A contract is created; there is no recipient.
    #[default]
    Create,
    /// The account at this address is called.
    Call(Address),
}

/// The bytes that a `TransactionKind` takes in memory.
pub const TRANSACTION_KIND_SIZE: usize = 21;

impl View for TransactionKind {
    type V = Option<Seq<u8>>;

    /// The recipient's address, if there is one.
    open spec fn view(&self) -> Option<Seq<u8>> {
        match self {
            TransactionKind::Create => None,
            TransactionKind::Call(to) => Some(to@),
        }
    }
}

/// The encoding of a recipient: the address as a byte string, or the empty
/// byte string where there is none.
pub open spec fn kind_bytes(to: Option<Seq<u8>>) -> Seq<u8> {
    match to {
        None => seq![0x80u8],
        Some(address) => str_bytes(address),
    }
}

/// Reads a recipient from the start of `s`: the address, if any, and the
/// number of bytes it took.
#[verifier::opaque]
pub open spec fn parse_kind(s: Seq<u8>) -> Result<(Option<Seq<u8>>, nat), DecodeError> {
    if s.len() == 0 {
        Err(DecodeError::InputTooShort)
    } else if s[0] == 0x80 {
        Ok((None, 1))
    } else {
        match parse_fixed(s, 20) {
            Err(e) => Err(e),
            Ok((address, k)) => Ok((Some(address), k)),
        }
    }
}

impl TransactionKind {
    /// The size of the recipient in memory.
    pub fn size(&self) -> (n: usize)
        ensures
            n == TRANSACTION_KIND_SIZE,
    {
        TRANSACTION_KIND_SIZE
    }

    /// The number of bytes that `encode` writes.
    pub fn length(&self) -> (n: usize)
        ensures
            n == kind_bytes(self@).len(),
            1 <= n <= 21,
    {
        match self {
            TransactionKind::Create => 1,
            TransactionKind::Call(to) => {
                proof {
                    lemma_str_bytes_len(to@);
                }
                21
            },
        }
    }

    /// Appends the encoding of the recipient to `out`.
    pub fn encode(&self, out: &mut Vec<u8>)
        ensures
            final(out)@ == old(out)@ + kind_bytes(self@),
    {
        match self {
            TransactionKind::Create => {
                out.push(EMPTY_STRING_CODE);
                assert(out@ =~= old(out)@ + kind_bytes(self@));
            },
            TransactionKind::Call(to) => {
                encode_fixed(to, out);
            },
        }
    }

    /// Reads a recipient from the front of `buf` and moves `buf` past it. A
    /// refused input leaves `buf` where it was.
    pub fn decode(buf: &mut &[u8]) -> (r: Result<TransactionKind, DecodeError>)
        ensures
            match parse_kind(old(buf)@) {
                Ok((to, k)) => r is Ok && r->Ok_0@ == to && final(buf)@ == old(buf)@.skip(
                    k as int,
                ),
                Err(e) => r == Err::<TransactionKind, DecodeError>(e) && *final(buf) == *old(buf),
            },
    {
        proof {
            reveal(parse_kind);
        }
        let input: &[u8] = *buf;
        if input.len() == 0 {
            return Err(DecodeError::InputTooShort);
        }
        if input[0] == EMPTY_STRING_CODE {
            *buf = slice_subrange(input, 1, input.len());
            Ok(TransactionKind::Create)
        } else {
            match decode_fixed::<20>(buf) {
                Ok(to) => Ok(TransactionKind::Call(to)),
                Err(e) => Err(e),
            }
        }
    }
}

/// Reading what `kind_bytes` wrote gives the recipient back and stops right
/// behind it.
pub proof fn lemma_parse_kind_bytes(to: Option<Seq<u8>>, rest: Seq<u8>)
    requires
        to is Some ==> to->Some_0.len() == 20,
    ensures
        parse_kind(kind_bytes(to) + rest) == Ok::<(Option<Seq<u8>>, nat), DecodeError>(
            (to, kind_bytes(to).len()),
        ),
        1 <= kind_bytes(to).len() <= 21,
{
    reveal(parse_kind);
    let s = kind_bytes(to) + rest;
    match to {
        None => {
            assert(s[0] == 0x80);
        },
        Some(address) => {
            lemma_str_bytes_len(address);
            assert(s[0] == str_bytes(address)[0]);
            lemma_parse_fixed_bytes(address, rest);
        },
    }
}

/// An accepted recipient is a canonical one.
pub proof fn lemma_parse_kind_canonical(s: Seq<u8>)
    requires
        parse_kind(s) is Ok,
    ensures
        ({
            let (to, k) = parse_kind(s)->Ok_0;
            &&& 1 <= k <= s.len()
            &&& to is Some ==> to->Some_0.len() == 20
            &&& s.take(k as int) == kind_bytes(to)
        }),
{
    reveal(parse_kind);
    if s[0] == 0x80 {
        assert(s.take(1) =~= seq![0x80u8]);
    } else {
        lemma_parse_fixed_canonical(s, 20);
    }
}

} // verus!
