//! Lists, and lists of fixed-width byte strings in particular.

use crate::primitives::{fitting, fitting_product, fitting_sum};
use crate::rlp::error::DecodeError;
use crate::rlp::fixed::{
    decode_fixed, encode_fixed, fixed_length, lemma_parse_fixed_bytes,
    lemma_parse_fixed_canonical, parse_fixed,
};
use crate::rlp::header::{lemma_header_bytes_len, 
    header_bytes, lemma_parse_header_bytes, lemma_parse_header_canonical, parse_header, Header,
};
use crate::rlp::string::{lemma_str_bytes_len, str_bytes};
use vstd::prelude::*;
use vstd::slice::slice_subrange;

verus! {

/// All the parts, one after the other.
pub open spec fn concat_all(parts: Seq<Seq<u8>>) -> Seq<u8>
    decreases parts.len(),
{
    if parts.len() == 0 {
        Seq::empty()
    } else {
        parts[0] + concat_all(parts.skip(1))
    }
}

/// The encoding of a list whose encoded items make up `payload`.
pub open spec fn list_bytes(payload: Seq<u8>) -> Seq<u8> {
    header_bytes(true, payload.len()) + payload
}

/// The byte sequences that the arrays of `items` hold.
pub open spec fn views<const N: usize>(items: Seq<[u8; N]>) -> Seq<Seq<u8>> {
    items.map_values(|item: [u8; N]| item@)
}

/// The encoded items of a list of byte strings, one after the other.
pub open spec fn str_items_bytes(items: Seq<Seq<u8>>) -> Seq<u8> {
    concat_all(items.map_values(|item: Seq<u8>| str_bytes(item)))
}

/// The encoding of a list of byte strings.
pub open spec fn str_list_bytes(items: Seq<Seq<u8>>) -> Seq<u8> {
    list_bytes(str_items_bytes(items))
}

/// Reads byte strings of `n` bytes each until `s` is used up.
#[verifier::opaque]
pub open spec fn parse_fixed_items(s: Seq<u8>, n: nat) -> Result<Seq<Seq<u8>>, DecodeError>
    decreases s.len(),
{
    if s.len() == 0 {
        Ok(Seq::empty())
    } else {
        match parse_fixed(s, n) {
            Err(e) => Err(e),
            Ok((item, k)) => {
                proof {
                    lemma_parse_fixed_canonical(s, n);
                }
                match parse_fixed_items(s.skip(k as int), n) {
                    Err(e) => Err(e),
                    Ok(items) => Ok(seq![item] + items),
                }
            },
        }
    }
}

/// Reads a list of byte strings of `n` bytes each from the start of `s`: the
/// items and the number of bytes the list took.
#[verifier::opaque]
pub open spec fn parse_fixed_list(s: Seq<u8>, n: nat) -> Result<
    (Seq<Seq<u8>>, nat),
    DecodeError,
> {
    match parse_header(s) {
        Err(e) => Err(e),
        Ok((h, k)) => if !h.list {
            Err(DecodeError::UnexpectedString)
        } else {
            match parse_fixed_items(s.subrange(k as int, k + h.payload_length), n) {
                Err(e) => Err(e),
                Ok(items) => Ok((items, k + h.payload_length as nat)),
            }
        },
    }
}

/// Joining two runs of parts joins what they concatenate to.
pub proof fn lemma_concat_all_append(a: Seq<Seq<u8>>, b: Seq<Seq<u8>>)
    ensures
        concat_all(a + b) == concat_all(a) + concat_all(b),
    decreases a.len(),
{
    if a.len() == 0 {
        assert(a + b =~= b);
        assert(concat_all(a) + concat_all(b) =~= concat_all(b));
    } else {
        assert((a + b).skip(1) =~= a.skip(1) + b);
        lemma_concat_all_append(a.skip(1), b);
        assert(concat_all(a + b) =~= concat_all(a) + concat_all(b));
    }
}

/// One more part at the end is appended to the concatenation.
pub proof fn lemma_concat_all_push(parts: Seq<Seq<u8>>, last: Seq<u8>)
    ensures
        concat_all(parts.push(last)) == concat_all(parts) + last,
{
    lemma_concat_all_append(parts, seq![last]);
    assert(parts.push(last) =~= parts + seq![last]);
    reveal_with_fuel(concat_all, 2);
    assert(seq![last].skip(1) =~= Seq::<Seq<u8>>::empty());
    assert(concat_all(seq![last]) =~= last);
}

/// The first `i` parts take no more bytes than all of them, and each further
/// part is appended.
pub proof fn lemma_concat_all_take(parts: Seq<Seq<u8>>, i: int)
    requires
        0 <= i <= parts.len(),
    ensures
        concat_all(parts.take(i)).len() <= concat_all(parts).len(),
        i < parts.len() ==> concat_all(parts.take(i + 1)) == concat_all(parts.take(i))
            + parts[i],
        concat_all(parts.take(0)).len() == 0,
{
    assert(parts =~= parts.take(i) + parts.skip(i));
    lemma_concat_all_append(parts.take(i), parts.skip(i));
    if i < parts.len() {
        assert(parts.take(i + 1) =~= parts.take(i).push(parts[i]));
        lemma_concat_all_push(parts.take(i), parts[i]);
    }
}

/// The first `i` items take no more bytes than all of them, and each further
/// item adds its own encoding.
pub proof fn lemma_str_items_prefix(items: Seq<Seq<u8>>, i: int)
    requires
        0 <= i <= items.len(),
    ensures
        str_items_bytes(items.take(i)).len() <= str_items_bytes(items).len(),
        i < items.len() ==> str_items_bytes(items.take(i + 1)) == str_items_bytes(items.take(i))
            + str_bytes(items[i]),
{
    let enc = |item: Seq<u8>| str_bytes(item);
    assert(items.map_values(enc) =~= items.take(i).map_values(enc) + items.skip(i).map_values(
        enc,
    ));
    lemma_concat_all_append(items.take(i).map_values(enc), items.skip(i).map_values(enc));
    if i < items.len() {
        assert(items.take(i + 1).map_values(enc) =~= items.take(i).map_values(enc).push(
            str_bytes(items[i]),
        ));
        lemma_concat_all_push(items.take(i).map_values(enc), str_bytes(items[i]));
    }
}

/// The number of bytes that the encoded items of `items` take.
pub fn fixed_items_length<const N: usize>(items: &Vec<[u8; N]>) -> (n: usize)
    requires
        str_items_bytes(views(items@)).len() <= usize::MAX,
    ensures
        n == str_items_bytes(views(items@)).len(),
{
    let ghost all = views(items@);
    let mut total: usize = 0;
    let mut i: usize = 0;
    assert(all.take(0).map_values(|item: Seq<u8>| str_bytes(item)) =~= Seq::empty());
    while i < items.len()
        invariant
            i <= items@.len(),
            all == views(items@),
            str_items_bytes(all).len() <= usize::MAX,
            total == str_items_bytes(all.take(i as int)).len(),
        decreases items@.len() - i,
    {
        proof {
            lemma_str_items_prefix(all, i as int);
            lemma_str_items_prefix(all, i + 1);
            assert(all[i as int] == items@[i as int]@);
        }
        total = total + fixed_length(&items[i]);
        i += 1;
    }
    assert(all.take(i as int) =~= all);
    total
}

/// The number of bytes that `encode_fixed_list` writes for `items`.
pub fn fixed_list_length<const N: usize>(items: &Vec<[u8; N]>) -> (n: usize)
    requires
        str_list_bytes(views(items@)).len() <= usize::MAX,
    ensures
        n == str_list_bytes(views(items@)).len(),
{
    let payload_length: usize = fixed_items_length(items);
    let h = Header { list: true, payload_length };
    h.length() + payload_length
}

/// Appends the encoding of the list `items` to `out`.
pub fn encode_fixed_list<const N: usize>(items: &Vec<[u8; N]>, out: &mut Vec<u8>)
    requires
        str_items_bytes(views(items@)).len() <= usize::MAX,
    ensures
        final(out)@ == old(out)@ + str_list_bytes(views(items@)),
{
    let ghost all = views(items@);
    let payload_length: usize = fixed_items_length(items);
    let h = Header { list: true, payload_length };
    h.encode(out);
    let ghost start = out@;
    let mut i: usize = 0;
    assert(all.take(0).map_values(|item: Seq<u8>| str_bytes(item)) =~= Seq::empty());
    assert(out@ =~= start + str_items_bytes(all.take(0)));
    while i < items.len()
        invariant
            i <= items@.len(),
            all == views(items@),
            out@ == start + str_items_bytes(all.take(i as int)),
        decreases items@.len() - i,
    {
        proof {
            lemma_str_items_prefix(all, i as int);
            assert(all[i as int] == items@[i as int]@);
        }
        encode_fixed(&items[i], out);
        i += 1;
        assert(out@ =~= start + str_items_bytes(all.take(i as int)));
    }
    assert(all.take(i as int) =~= all);
    assert(out@ =~= old(out)@ + str_list_bytes(all));
}

/// Reads a list of byte strings of `N` bytes each from the front of `buf` and
/// moves `buf` past it. A refused input leaves `buf` where it was.
pub fn decode_fixed_list<const N: usize>(buf: &mut &[u8]) -> (r: Result<
    Vec<[u8; N]>,
    DecodeError,
>)
    ensures
        match parse_fixed_list(old(buf)@, N as nat) {
            Ok((items, k)) => r is Ok && views(r->Ok_0@) == items && final(buf)@ == old(
                buf,
            )@.skip(k as int),
            Err(e) => r == Err::<Vec<[u8; N]>, DecodeError>(e) && *final(buf) == *old(buf),
        },
{
    proof {
        reveal(parse_fixed_items);
        reveal(parse_fixed_list);
    }
    let input: &[u8] = *buf;
    let mut rest: &[u8] = input;
    let h = match Header::decode(&mut rest) {
        Ok(h) => h,
        Err(e) => {
            return Err(e);
        },
    };
    if !h.list {
        return Err(DecodeError::UnexpectedString);
    }
    proof {
        lemma_parse_header_canonical(input@);
    }
    let ghost hk = parse_header(input@)->Ok_0.1;
    let payload: &[u8] = slice_subrange(rest, 0, h.payload_length);
    assert(payload@ =~= input@.subrange(hk as int, hk + h.payload_length));
    let mut view: &[u8] = payload;
    let mut items: Vec<[u8; N]> = Vec::new();
    assert(views(items@) =~= Seq::<Seq<u8>>::empty());
    while view.len() > 0
        invariant
            *buf == *old(buf),
            input == *old(buf),
            parse_header(input@) == Ok::<(Header, nat), DecodeError>((h, hk)),
            h.list,
            payload@ == input@.subrange(hk as int, hk + h.payload_length),
            match parse_fixed_items(view@, N as nat) {
                Ok(tail) => parse_fixed_items(payload@, N as nat) == Ok::<
                    Seq<Seq<u8>>,
                    DecodeError,
                >(views(items@) + tail),
                Err(e) => parse_fixed_items(payload@, N as nat) == Err::<
                    Seq<Seq<u8>>,
                    DecodeError,
                >(e),
            },
        decreases view@.len(),
    {
        proof {
            reveal(parse_fixed_items);
            reveal(parse_fixed_list);
        }
        let ghost before = view@;
        let ghost done = views(items@);
        match decode_fixed::<N>(&mut view) {
            Ok(item) => {
                proof {
                    lemma_parse_fixed_canonical(before, N as nat);
                }
                items.push(item);
                proof {
                    assert(views(items@) =~= done.push(item@));
                    match parse_fixed_items(view@, N as nat) {
                        Ok(tail) => {
                            assert(done + (seq![item@] + tail) =~= views(items@) + tail);
                        },
                        Err(e) => {},
                    }
                }
            },
            Err(e) => {
                return Err(e);
            },
        }
    }
    assert(views(items@) + Seq::<Seq<u8>>::empty() =~= views(items@));
    *buf = slice_subrange(rest, h.payload_length, rest.len());
    assert(final(buf)@ =~= input@.skip(hk + h.payload_length));
    Ok(items)
}

/// The encoded items of byte strings of `n` bytes each are read back as those
/// byte strings.
pub proof fn lemma_parse_fixed_items_bytes(items: Seq<Seq<u8>>, n: nat)
    requires
        n <= usize::MAX,
        forall|i: int| 0 <= i < items.len() ==> (#[trigger] items[i]).len() == n,
    ensures
        parse_fixed_items(str_items_bytes(items), n) == Ok::<Seq<Seq<u8>>, DecodeError>(items),
    decreases items.len(),
{
    reveal(parse_fixed_items);
    let enc = |item: Seq<u8>| str_bytes(item);
    let parts = items.map_values(enc);
    if items.len() == 0 {
        assert(items =~= Seq::<Seq<u8>>::empty());
    } else {
        let tail = items.skip(1);
        assert(parts.skip(1) =~= tail.map_values(enc));
        let s = str_items_bytes(items);
        assert(s == str_bytes(items[0]) + str_items_bytes(tail));
        lemma_str_bytes_len(items[0]);
        lemma_parse_fixed_bytes(items[0], str_items_bytes(tail));
        assert(s.skip(str_bytes(items[0]).len() as int) =~= str_items_bytes(tail));
        lemma_parse_fixed_items_bytes(tail, n);
        assert(seq![items[0]] + tail =~= items);
    }
}

/// What `parse_fixed_items` accepts is what `str_items_bytes` writes for the
/// items, each of which has `n` bytes.
pub proof fn lemma_parse_fixed_items_canonical(s: Seq<u8>, n: nat)
    requires
        parse_fixed_items(s, n) is Ok,
    ensures
        ({
            let items = parse_fixed_items(s, n)->Ok_0;
            &&& s == str_items_bytes(items)
            &&& forall|i: int| 0 <= i < items.len() ==> (#[trigger] items[i]).len() == n
        }),
    decreases s.len(),
{
    reveal(parse_fixed_items);
    let enc = |item: Seq<u8>| str_bytes(item);
    let items = parse_fixed_items(s, n)->Ok_0;
    if s.len() == 0 {
        assert(items.map_values(enc) =~= Seq::<Seq<u8>>::empty());
        assert(s =~= str_items_bytes(items));
    } else {
        lemma_parse_fixed_canonical(s, n);
        let (item, k) = parse_fixed(s, n)->Ok_0;
        lemma_parse_fixed_items_canonical(s.skip(k as int), n);
        let tail = parse_fixed_items(s.skip(k as int), n)->Ok_0;
        assert(items == seq![item] + tail);
        assert(items.map_values(enc).skip(1) =~= tail.map_values(enc));
        assert(s =~= s.take(k as int) + s.skip(k as int));
        assert forall|i: int| 0 <= i < items.len() implies (#[trigger] items[i]).len() == n by {
            if i > 0 {
                assert(items[i] == tail[i - 1]);
            }
        }
    }
}

/// Reading what `str_list_bytes` wrote for byte strings of `n` bytes each
/// gives them back and stops right behind the list.
pub proof fn lemma_parse_fixed_list_bytes(items: Seq<Seq<u8>>, n: nat, rest: Seq<u8>)
    requires
        n <= usize::MAX,
        forall|i: int| 0 <= i < items.len() ==> (#[trigger] items[i]).len() == n,
        str_items_bytes(items).len() <= usize::MAX,
    ensures
        parse_fixed_list(str_list_bytes(items) + rest, n) == Ok::<
            (Seq<Seq<u8>>, nat),
            DecodeError,
        >((items, str_list_bytes(items).len())),
{
    reveal(parse_fixed_list);
    let payload = str_items_bytes(items);
    let hb = header_bytes(true, payload.len());
    let s = str_list_bytes(items) + rest;
    assert(s =~= hb + (payload + rest));
    lemma_parse_header_bytes(true, payload.len() as usize, payload + rest);
    assert(s.subrange(hb.len() as int, (hb.len() + payload.len()) as int) =~= payload);
    lemma_parse_fixed_items_bytes(items, n);
}

/// An accepted list of fixed-width byte strings is a canonical one.
pub proof fn lemma_parse_fixed_list_canonical(s: Seq<u8>, n: nat)
    requires
        parse_fixed_list(s, n) is Ok,
    ensures
        ({
            let (items, k) = parse_fixed_list(s, n)->Ok_0;
            &&& 1 <= k <= s.len()
            &&& s.take(k as int) == str_list_bytes(items)
            &&& str_items_bytes(items).len() <= usize::MAX
            &&& forall|i: int| 0 <= i < items.len() ==> (#[trigger] items[i]).len() == n
        }),
{
    reveal(parse_fixed_list);
    lemma_parse_header_canonical(s);
    let (h, hk) = parse_header(s)->Ok_0;
    let payload = s.subrange(hk as int, hk + h.payload_length);
    lemma_parse_fixed_items_canonical(payload, n);
    let (items, k) = parse_fixed_list(s, n)->Ok_0;
    assert(s.take(k as int) =~= s.take(hk as int) + payload);
}

/// The most bytes that the encoding of a byte string takes beyond its
/// payload: those of the longest header.
pub const MAX_HEADER_LENGTH: usize = 9;

/// A bound on the length of the encoding of a list of `count` byte strings
/// of `width` bytes each: every item and the list itself with the longest
/// header.
pub open spec fn fixed_list_len_bound(count: nat, width: nat) -> nat {
    MAX_HEADER_LENGTH as nat + count * (width + MAX_HEADER_LENGTH as nat)
}

/// The encoding of a list of byte strings of `width` bytes each is no longer
/// than `fixed_list_len_bound` says.
pub proof fn lemma_fixed_list_len_bound(items: Seq<Seq<u8>>, width: nat)
    requires
        forall|i: int| 0 <= i < items.len() ==> (#[trigger] items[i]).len() == width,
        fixed_list_len_bound(items.len(), width) <= usize::MAX,
    ensures
        str_items_bytes(items).len() <= items.len() * (width + MAX_HEADER_LENGTH as nat),
        str_list_bytes(items).len() <= fixed_list_len_bound(items.len(), width),
    decreases items.len(),
{
    let per_item = width + MAX_HEADER_LENGTH as nat;
    if items.len() == 0 {
        lemma_str_items_prefix(items, 0);
        assert(items.take(0) =~= items);
    } else {
        let n = items.len() - 1;
        let init = items.take(n);
        assert(init.len() * per_item + per_item == items.len() * per_item) by (nonlinear_arith)
            requires
                init.len() + 1 == items.len(),
        ;
        lemma_fixed_list_len_bound(init, width);
        lemma_str_items_prefix(items, n);
        assert(items.take(n + 1) =~= items);
        lemma_str_bytes_len(items[n]);
    }
    lemma_header_bytes_len(true, str_items_bytes(items).len());
}

/// A bound on the length of the encoding of `items`, or nothing where the
/// bound is larger than any machine word.
pub fn fixed_list_length_bound<const N: usize>(items: &Vec<[u8; N]>) -> (bound: Option<usize>)
    ensures
        bound == fitting(fixed_list_len_bound(items@.len(), N as nat)),
        bound is Some ==> str_list_bytes(views(items@)).len() <= bound->Some_0,
{
    let per_item: Option<usize> = fitting_sum(Some(N), Some(MAX_HEADER_LENGTH));
    let bound: Option<usize> = if items.len() == 0 {
        Some(MAX_HEADER_LENGTH)
    } else {
        match per_item {
            Some(per_item) => fitting_sum(
                Some(MAX_HEADER_LENGTH),
                fitting_product(items.len(), per_item),
            ),
            None => None,
        }
    };
    proof {
        let count = items@.len();
        let per = N as nat + MAX_HEADER_LENGTH as nat;
        if count == 0 {
            assert(count * per == 0) by (nonlinear_arith)
                requires
                    count == 0,
            ;
        } else {
            assert(count * per >= per) by (nonlinear_arith)
                requires
                    count >= 1,
            ;
        }
        if bound is Some {
            assert forall|i: int| 0 <= i < views(items@).len() implies (#[trigger] views(
                items@,
            )[i]).len() == N by {
                assert(views(items@)[i] == items@[i]@);
            }
            lemma_fixed_list_len_bound(views(items@), N as nat);
        }
    }
    bound
}

} // verus!
