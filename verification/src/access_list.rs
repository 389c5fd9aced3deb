//! Access lists: the addresses and storage keys that a transaction declares
//! it will touch.

use crate::primitives::{
    fitting, fitting_sum, saturated, saturating_product, Address, H256,
};
use crate::rlp::error::DecodeError;
use crate::rlp::fixed::{
    decode_fixed, encode_fixed, lemma_parse_fixed_bytes, lemma_parse_fixed_canonical,
    parse_fixed,
};
use crate::rlp::header::{
    header_bytes, lemma_header_bytes_len, lemma_parse_header_bytes, lemma_parse_header_canonical,
    parse_header, Header,
};
use crate::rlp::list::{
    fixed_list_len_bound, fixed_list_length_bound, lemma_fixed_list_len_bound, MAX_HEADER_LENGTH,
    concat_all, decode_fixed_list, encode_fixed_list, fixed_list_length, lemma_concat_all_take,
    lemma_parse_fixed_list_bytes, lemma_parse_fixed_list_canonical, list_bytes, parse_fixed_list,
    str_items_bytes, str_list_bytes, views,
};
use crate::rlp::string::{lemma_str_bytes_len, str_bytes};
use vstd::prelude::*;
use vstd::slice::slice_subrange;

verus! {

/// An address and the storage keys under it that a transaction will touch.
#[derive(Clone, Debug, PartialEq, Eq, Hash, Default)]
pub struct AccessListItem {
    /// The account.
    pub address: Address,
    /// The keys into the account's storage.
    pub storage_keys: Vec<H256>,
}

/// The entries of an access list, in order.
#[derive(Clone, Debug, PartialEq, Eq, Hash, Default)]
pub struct AccessList(pub Vec<AccessListItem>);

/// What an access-list entry holds.
pub struct AccessListItemView {
    pub address: Seq<u8>,
    pub storage_keys: Seq<Seq<u8>>,
}

impl View for AccessListItem {
    type V = AccessListItemView;

    open spec fn view(&self) -> AccessListItemView {
        AccessListItemView { address: self.address@, storage_keys: views(self.storage_keys@) }
    }
}

impl View for AccessList {
    type V = Seq<AccessListItemView>;

    open spec fn view(&self) -> Seq<AccessListItemView> {
        self.0@.map_values(|item: AccessListItem| item@)
    }
}

/// The bytes that an entry takes in memory, without its keys.
pub const ACCESS_LIST_ITEM_SIZE: usize = 48;

/// The encoded fields of an entry: the address, then the list of keys.
pub open spec fn item_payload(item: AccessListItemView) -> Seq<u8> {
    str_bytes(item.address) + str_list_bytes(item.storage_keys)
}

/// The encoding of an entry: the list of its two fields.
pub open spec fn item_bytes(item: AccessListItemView) -> Seq<u8> {
    list_bytes(item_payload(item))
}

/// The encoded entries, one after the other.
pub open spec fn items_bytes(items: Seq<AccessListItemView>) -> Seq<u8> {
    concat_all(items.map_values(|item: AccessListItemView| item_bytes(item)))
}

/// The encoding of an access list: the list of its entries.
pub open spec fn access_list_bytes(items: Seq<AccessListItemView>) -> Seq<u8> {
    list_bytes(items_bytes(items))
}

/// An entry with an address of 20 bytes and keys of 32 bytes, whose encoded
/// parts have lengths that a machine word holds.
pub open spec fn item_wf(item: AccessListItemView) -> bool {
    &&& item.address.len() == 20
    &&& forall|i: int|
        0 <= i < item.storage_keys.len() ==> (#[trigger] item.storage_keys[i]).len() == 32
    &&& str_items_bytes(item.storage_keys).len() <= usize::MAX
    &&& item_payload(item).len() <= usize::MAX
}

/// An access list of well-formed entries whose encoded entries have a length
/// that a machine word holds.
pub open spec fn access_list_wf(items: Seq<AccessListItemView>) -> bool {
    &&& forall|i: int| 0 <= i < items.len() ==> item_wf(#[trigger] items[i])
    &&& items_bytes(items).len() <= usize::MAX
}

/// Reads an entry from the start of `s`: the entry and the number of bytes it
/// took. The two fields must fill the declared payload exactly.
#[verifier::opaque]
pub open spec fn parse_item(s: Seq<u8>) -> Result<(AccessListItemView, nat), DecodeError> {
    match parse_header(s) {
        Err(e) => Err(e),
        Ok((h, k)) => if !h.list {
            Err(DecodeError::UnexpectedString)
        } else {
            let body = s.skip(k as int);
            match parse_fixed(body, 20) {
                Err(e) => Err(e),
                Ok((address, k1)) => match parse_fixed_list(body.skip(k1 as int), 32) {
                    Err(e) => Err(e),
                    Ok((storage_keys, k2)) => if k1 + k2 != h.payload_length {
                        Err(
                            DecodeError::ListLengthMismatch {
                                expected: h.payload_length,
                                got: (k1 + k2) as usize,
                            },
                        )
                    } else {
                        Ok(
                            (
                                AccessListItemView { address, storage_keys },
                                k + h.payload_length as nat,
                            ),
                        )
                    },
                },
            }
        },
    }
}

/// Reads entries until `s` is used up.
#[verifier::opaque]
pub open spec fn parse_items(s: Seq<u8>) -> Result<Seq<AccessListItemView>, DecodeError>
    decreases s.len(),
{
    if s.len() == 0 {
        Ok(Seq::empty())
    } else {
        match parse_item(s) {
            Err(e) => Err(e),
            Ok((item, k)) => {
                proof {
                    lemma_parse_item_canonical(s);
                }
                match parse_items(s.skip(k as int)) {
                    Err(e) => Err(e),
                    Ok(items) => Ok(seq![item] + items),
                }
            },
        }
    }
}

/// Reads an access list from the start of `s`: its entries and the number of
/// bytes it took.
#[verifier::opaque]
pub open spec fn parse_access_list(s: Seq<u8>) -> Result<
    (Seq<AccessListItemView>, nat),
    DecodeError,
> {
    match parse_header(s) {
        Err(e) => Err(e),
        Ok((h, k)) => if !h.list {
            Err(DecodeError::UnexpectedString)
        } else {
            match parse_items(s.subrange(k as int, k + h.payload_length)) {
                Err(e) => Err(e),
                Ok(items) => Ok((items, k + h.payload_length as nat)),
            }
        },
    }
}

/// The heuristic size of an entry in memory: its address and its keys.
pub open spec fn item_size(item: AccessListItemView) -> nat {
    20 + item.storage_keys.len() * 32
}

/// The heuristic sizes of the entries, added up.
pub open spec fn items_size(items: Seq<AccessListItemView>) -> nat
    decreases items.len(),
{
    if items.len() == 0 {
        0
    } else {
        items_size(items.drop_last()) + item_size(items.last())
    }
}

/// The heuristic size of an access list in memory: what its entries hold, and
/// the entries themselves.
pub open spec fn access_list_size(items: Seq<AccessListItemView>) -> nat {
    items_size(items) + items.len() * 48
}

impl AccessListItem {
    /// The heuristic size of the entry in memory, capped at the largest
    /// machine word.
    pub fn size(&self) -> (n: usize)
        ensures
            n == saturated(item_size(self@)),
    {
        saturating_product(self.storage_keys.len(), 32).saturating_add(20)
    }

    /// The number of bytes that the two encoded fields take.
    pub fn payload_length(&self) -> (n: usize)
        requires
            item_payload(self@).len() <= usize::MAX,
        ensures
            n == item_payload(self@).len(),
    {
        proof {
            lemma_str_bytes_len(self.address@);
        }
        21 + fixed_list_length(&self.storage_keys)
    }

    /// The number of bytes that `encode` writes.
    pub fn length(&self) -> (n: usize)
        requires
            item_bytes(self@).len() <= usize::MAX,
        ensures
            n == item_bytes(self@).len(),
    {
        let payload_length: usize = self.payload_length();
        let h = Header { list: true, payload_length };
        h.length() + payload_length
    }

    /// Appends the encoding of the entry to `out`.
    pub fn encode(&self, out: &mut Vec<u8>)
        requires
            item_payload(self@).len() <= usize::MAX,
        ensures
            final(out)@ == old(out)@ + item_bytes(self@),
    {
        let h = Header { list: true, payload_length: self.payload_length() };
        h.encode(out);
        encode_fixed(&self.address, out);
        encode_fixed_list(&self.storage_keys, out);
        assert(out@ =~= old(out)@ + item_bytes(self@));
    }

    /// Reads an entry from the front of `buf` and moves `buf` past it. A
    /// refused input leaves `buf` where it was.
    pub fn decode(buf: &mut &[u8]) -> (r: Result<AccessListItem, DecodeError>)
        ensures
            match parse_item(old(buf)@) {
                Ok((item, k)) => r is Ok && r->Ok_0@ == item && final(buf)@ == old(buf)@.skip(
                    k as int,
                ),
                Err(e) => r == Err::<AccessListItem, DecodeError>(e) && *final(buf) == *old(buf),
            },
    {
        proof {
            reveal(parse_item);
        }
        let input: &[u8] = *buf;
        let mut rest: &[u8] = input;
        let h = match Header::decode(&mut rest) {
            Ok(h) => h,
            Err(e) => {
                return Err(e);
            },
        };
        if !h.list {
            return Err(DecodeError::UnexpectedString);
        }
        let ghost body = rest@;
        let started: usize = rest.len();
        let address: Address = match decode_fixed::<20>(&mut rest) {
            Ok(a) => a,
            Err(e) => {
                return Err(e);
            },
        };
        let ghost after_address = rest@;
        let storage_keys: Vec<H256> = match decode_fixed_list::<32>(&mut rest) {
            Ok(k) => k,
            Err(e) => {
                return Err(e);
            },
        };
        proof {
            lemma_parse_header_canonical(input@);
            lemma_parse_fixed_canonical(body, 20);
            lemma_parse_fixed_list_canonical(after_address, 32);
        }
        let consumed: usize = started - rest.len();
        if consumed != h.payload_length {
            return Err(
                DecodeError::ListLengthMismatch { expected: h.payload_length, got: consumed },
            );
        }
        *buf = rest;
        proof {
            let k = parse_header(input@)->Ok_0.1;
            assert(final(buf)@ =~= input@.skip(k + h.payload_length));
        }
        Ok(AccessListItem { address, storage_keys })
    }
}

/// The encodings of the first `i` entries take no more bytes than those of
/// all, and each further entry adds its own encoding.
pub proof fn lemma_items_bytes_prefix(items: Seq<AccessListItemView>, i: int)
    requires
        0 <= i <= items.len(),
    ensures
        items_bytes(items.take(i)).len() <= items_bytes(items).len(),
        i < items.len() ==> items_bytes(items.take(i + 1)) == items_bytes(items.take(i))
            + item_bytes(items[i]),
        i < items.len() ==> item_bytes(items[i]).len() <= items_bytes(items).len(),
        items_bytes(items.take(0)).len() == 0,
{
    let enc = |item: AccessListItemView| item_bytes(item);
    let parts = items.map_values(enc);
    lemma_concat_all_take(parts, i);
    assert(items.take(i).map_values(enc) =~= parts.take(i));
    assert(items.take(0).map_values(enc) =~= parts.take(0));
    if i < items.len() {
        lemma_concat_all_take(parts, i + 1);
        assert(items.take(i + 1).map_values(enc) =~= parts.take(i + 1));
    }
}

impl AccessList {
    /// The heuristic size of the access list in memory, capped at the largest
    /// machine word.
    pub fn size(&self) -> (n: usize)
        ensures
            n == saturated(access_list_size(self@)),
    {
        let mut total: usize = 0;
        let mut i: usize = 0;
        assert(self@.take(0) =~= Seq::<AccessListItemView>::empty());
        while i < self.0.len()
            invariant
                i <= self.0@.len(),
                total == saturated(items_size(self@.take(i as int))),
            decreases self.0@.len() - i,
        {
            proof {
                let next = self@.take(i + 1);
                assert(next.drop_last() =~= self@.take(i as int));
                assert(next.last() == self.0@[i as int]@);
            }
            total = total.saturating_add(self.0[i].size());
            i += 1;
        }
        assert(self@.take(i as int) =~= self@);
        total.saturating_add(saturating_product(self.0.len(), ACCESS_LIST_ITEM_SIZE))
    }

    /// The number of bytes that the encoded entries take.
    pub fn payload_length(&self) -> (n: usize)
        requires
            items_bytes(self@).len() <= usize::MAX,
        ensures
            n == items_bytes(self@).len(),
    {
        let mut total: usize = 0;
        let mut i: usize = 0;
        proof {
            lemma_items_bytes_prefix(self@, 0);
        }
        while i < self.0.len()
            invariant
                i <= self.0@.len(),
                items_bytes(self@).len() <= usize::MAX,
                total == items_bytes(self@.take(i as int)).len(),
            decreases self.0@.len() - i,
        {
            proof {
                lemma_items_bytes_prefix(self@, i as int);
                lemma_items_bytes_prefix(self@, i + 1);
                assert(self@[i as int] == self.0@[i as int]@);
            }
            total = total + self.0[i].length();
            i += 1;
        }
        assert(self@.take(i as int) =~= self@);
        total
    }

    /// The number of bytes that `encode` writes.
    pub fn length(&self) -> (n: usize)
        requires
            access_list_bytes(self@).len() <= usize::MAX,
        ensures
            n == access_list_bytes(self@).len(),
    {
        let payload_length: usize = self.payload_length();
        let h = Header { list: true, payload_length };
        h.length() + payload_length
    }

    /// Appends the encoding of the access list to `out`.
    pub fn encode(&self, out: &mut Vec<u8>)
        requires
            items_bytes(self@).len() <= usize::MAX,
        ensures
            final(out)@ == old(out)@ + access_list_bytes(self@),
    {
        let h = Header { list: true, payload_length: self.payload_length() };
        h.encode(out);
        let ghost start = out@;
        let mut i: usize = 0;
        proof {
            lemma_items_bytes_prefix(self@, 0);
            assert(out@ =~= start + items_bytes(self@.take(0)));
        }
        while i < self.0.len()
            invariant
                i <= self.0@.len(),
                items_bytes(self@).len() <= usize::MAX,
                out@ == start + items_bytes(self@.take(i as int)),
            decreases self.0@.len() - i,
        {
            proof {
                lemma_items_bytes_prefix(self@, i as int);
                assert(self@[i as int] == self.0@[i as int]@);
                lemma_header_bytes_len(true, item_payload(self@[i as int]).len());
            }
            self.0[i].encode(out);
            i += 1;
            assert(out@ =~= start + items_bytes(self@.take(i as int)));
        }
        assert(self@.take(i as int) =~= self@);
        assert(out@ =~= old(out)@ + access_list_bytes(self@));
    }

    /// Reads an access list from the front of `buf` and moves `buf` past it. A
    /// refused input leaves `buf` where it was.
    pub fn decode(buf: &mut &[u8]) -> (r: Result<AccessList, DecodeError>)
        ensures
            match parse_access_list(old(buf)@) {
                Ok((items, k)) => r is Ok && r->Ok_0@ == items && final(buf)@ == old(buf)@.skip(
                    k as int,
                ),
                Err(e) => r == Err::<AccessList, DecodeError>(e) && *final(buf) == *old(buf),
            },
    {
        proof {
            reveal(parse_items);
            reveal(parse_access_list);
        }
        let input: &[u8] = *buf;
        let mut rest: &[u8] = input;
        let h = match Header::decode(&mut rest) {
            Ok(h) => h,
            Err(e) => {
                return Err(e);
            },
        };
        if !h.list {
            return Err(DecodeError::UnexpectedString);
        }
        proof {
            lemma_parse_header_canonical(input@);
        }
        let ghost hk = parse_header(input@)->Ok_0.1;
        let payload: &[u8] = slice_subrange(rest, 0, h.payload_length);
        assert(payload@ =~= input@.subrange(hk as int, hk + h.payload_length));
        let mut view: &[u8] = payload;
        let mut items: Vec<AccessListItem> = Vec::new();
        let ghost view_of = |item: AccessListItem| item@;
        assert(items@.map_values(view_of) =~= Seq::<AccessListItemView>::empty());
        while view.len() > 0
            invariant
                *buf == *old(buf),
                input == *old(buf),
                parse_header(input@) == Ok::<(Header, nat), DecodeError>((h, hk)),
                h.list,
                payload@ == input@.subrange(hk as int, hk + h.payload_length),
                view_of == |item: AccessListItem| item@,
                match parse_items(view@) {
                    Ok(tail) => parse_items(payload@) == Ok::<
                        Seq<AccessListItemView>,
                        DecodeError,
                    >(items@.map_values(view_of) + tail),
                    Err(e) => parse_items(payload@) == Err::<
                        Seq<AccessListItemView>,
                        DecodeError,
                    >(e),
                },
            decreases view@.len(),
        {
            proof {
                reveal(parse_items);
                reveal(parse_access_list);
            }
            let ghost before = view@;
            let ghost done = items@.map_values(view_of);
            match AccessListItem::decode(&mut view) {
                Ok(item) => {
                    proof {
                        lemma_parse_item_canonical(before);
                    }
                    items.push(item);
                    proof {
                        assert(items@.map_values(view_of) =~= done.push(item@));
                        match parse_items(view@) {
                            Ok(tail) => {
                                assert(done + (seq![item@] + tail) =~= items@.map_values(view_of)
                                    + tail);
                            },
                            Err(e) => {},
                        }
                    }
                },
                Err(e) => {
                    return Err(e);
                },
            }
        }
        assert(items@.map_values(view_of) + Seq::<AccessListItemView>::empty()
            =~= items@.map_values(view_of));
        *buf = slice_subrange(rest, h.payload_length, rest.len());
        assert(final(buf)@ =~= input@.skip(hk + h.payload_length));
        let list = AccessList(items);
        assert(list@ =~= items@.map_values(view_of));
        Ok(list)
    }
}

/// Reading what `item_bytes` wrote for a well-formed entry gives the entry
/// back and stops right behind it.
pub proof fn lemma_parse_item_bytes(item: AccessListItemView, rest: Seq<u8>)
    requires
        item_wf(item),
    ensures
        parse_item(item_bytes(item) + rest) == Ok::<(AccessListItemView, nat), DecodeError>(
            (item, item_bytes(item).len()),
        ),
        item_bytes(item).len() >= 1,
{
    reveal(parse_item);
    let payload = item_payload(item);
    let hb = header_bytes(true, payload.len());
    let s = item_bytes(item) + rest;
    let keys = str_list_bytes(item.storage_keys);
    assert(s =~= hb + (payload + rest));
    lemma_parse_header_bytes(true, payload.len() as usize, payload + rest);
    let body = s.skip(hb.len() as int);
    assert(body =~= str_bytes(item.address) + (keys + rest));
    lemma_parse_fixed_bytes(item.address, keys + rest);
    let k1 = str_bytes(item.address).len();
    assert(body.skip(k1 as int) =~= keys + rest);
    lemma_parse_fixed_list_bytes(item.storage_keys, 32, rest);
}

/// An accepted entry is a canonical and well-formed one.
pub proof fn lemma_parse_item_canonical(s: Seq<u8>)
    requires
        parse_item(s) is Ok,
    ensures
        ({
            let (item, k) = parse_item(s)->Ok_0;
            &&& 1 <= k <= s.len()
            &&& item_wf(item)
            &&& s.take(k as int) == item_bytes(item)
        }),
{
    reveal(parse_item);
    lemma_parse_header_canonical(s);
    let (h, hk) = parse_header(s)->Ok_0;
    let body = s.skip(hk as int);
    lemma_parse_fixed_canonical(body, 20);
    let (address, k1) = parse_fixed(body, 20)->Ok_0;
    lemma_parse_fixed_list_canonical(body.skip(k1 as int), 32);
    let (storage_keys, k2) = parse_fixed_list(body.skip(k1 as int), 32)->Ok_0;
    let (item, k) = parse_item(s)->Ok_0;
    assert(body.take(k1 as int) + body.skip(k1 as int).take(k2 as int) =~= s.subrange(
        hk as int,
        hk + h.payload_length,
    ));
    assert(s.take(k as int) =~= s.take(hk as int) + s.subrange(hk as int, hk + h.payload_length));
    lemma_header_bytes_len(true, str_items_bytes(storage_keys).len());
}

/// The encoded entries of well-formed entries are read back as those entries.
pub proof fn lemma_parse_items_bytes(items: Seq<AccessListItemView>)
    requires
        forall|i: int| 0 <= i < items.len() ==> item_wf(#[trigger] items[i]),
    ensures
        parse_items(items_bytes(items)) == Ok::<Seq<AccessListItemView>, DecodeError>(items),
    decreases items.len(),
{
    reveal(parse_items);
    let enc = |item: AccessListItemView| item_bytes(item);
    let parts = items.map_values(enc);
    if items.len() == 0 {
        assert(items =~= Seq::<AccessListItemView>::empty());
    } else {
        let tail = items.skip(1);
        assert(parts.skip(1) =~= tail.map_values(enc));
        let s = items_bytes(items);
        assert(s == item_bytes(items[0]) + items_bytes(tail));
        lemma_parse_item_bytes(items[0], items_bytes(tail));
        assert(s.skip(item_bytes(items[0]).len() as int) =~= items_bytes(tail));
        assert forall|i: int| 0 <= i < tail.len() implies item_wf(#[trigger] tail[i]) by {
            assert(tail[i] == items[i + 1]);
        }
        lemma_parse_items_bytes(tail);
        assert(seq![items[0]] + tail =~= items);
    }
}

/// What `parse_items` accepts is what `items_bytes` writes for the entries.
pub proof fn lemma_parse_items_canonical(s: Seq<u8>)
    requires
        parse_items(s) is Ok,
    ensures
        s == items_bytes(parse_items(s)->Ok_0),
    decreases s.len(),
{
    reveal(parse_items);
    let enc = |item: AccessListItemView| item_bytes(item);
    let items = parse_items(s)->Ok_0;
    if s.len() == 0 {
        assert(items.map_values(enc) =~= Seq::<Seq<u8>>::empty());
        assert(s =~= items_bytes(items));
    } else {
        lemma_parse_item_canonical(s);
        let (item, k) = parse_item(s)->Ok_0;
        let rest = s.skip(k as int);
        lemma_parse_items_canonical(rest);
        let tail = parse_items(rest)->Ok_0;
        assert(items == seq![item] + tail);
        assert(items.map_values(enc)[0] == item_bytes(item));
        assert(items.map_values(enc).skip(1) =~= tail.map_values(enc));
        assert(items_bytes(items) == item_bytes(item) + items_bytes(tail));
        assert(s =~= s.take(k as int) + rest);
    }
}

/// The entries that `parse_items` accepts are well formed.
pub proof fn lemma_parse_items_wf(s: Seq<u8>, i: int)
    requires
        parse_items(s) is Ok,
        0 <= i < parse_items(s)->Ok_0.len(),
    ensures
        item_wf(parse_items(s)->Ok_0[i]),
    decreases s.len(),
{
    reveal(parse_items);
    if s.len() != 0 {
        lemma_parse_item_canonical(s);
        let (item, k) = parse_item(s)->Ok_0;
        let rest = s.skip(k as int);
        let tail = parse_items(rest)->Ok_0;
        assert(parse_items(s)->Ok_0 == seq![item] + tail);
        if i > 0 {
            lemma_parse_items_wf(rest, i - 1);
            assert((seq![item] + tail)[i] == tail[i - 1]);
        }
    }
}

/// Reading what `access_list_bytes` wrote for a well-formed access list gives
/// it back and stops right behind it.
pub proof fn lemma_parse_access_list_bytes(items: Seq<AccessListItemView>, rest: Seq<u8>)
    requires
        access_list_wf(items),
    ensures
        parse_access_list(access_list_bytes(items) + rest) == Ok::<
            (Seq<AccessListItemView>, nat),
            DecodeError,
        >((items, access_list_bytes(items).len())),
        access_list_bytes(items).len() >= 1,
{
    reveal(parse_access_list);
    let payload = items_bytes(items);
    let hb = header_bytes(true, payload.len());
    let s = access_list_bytes(items) + rest;
    assert(s =~= hb + (payload + rest));
    lemma_parse_header_bytes(true, payload.len() as usize, payload + rest);
    assert(s.subrange(hb.len() as int, (hb.len() + payload.len()) as int) =~= payload);
    lemma_parse_items_bytes(items);
}

/// An accepted access list is a canonical and well-formed one.
pub proof fn lemma_parse_access_list_canonical(s: Seq<u8>)
    requires
        parse_access_list(s) is Ok,
    ensures
        ({
            let (items, k) = parse_access_list(s)->Ok_0;
            &&& 1 <= k <= s.len()
            &&& access_list_wf(items)
            &&& s.take(k as int) == access_list_bytes(items)
        }),
{
    reveal(parse_access_list);
    lemma_parse_header_canonical(s);
    let (h, hk) = parse_header(s)->Ok_0;
    let payload = s.subrange(hk as int, hk + h.payload_length);
    lemma_parse_items_canonical(payload);
    let (items, k) = parse_access_list(s)->Ok_0;
    assert(s.take(k as int) =~= s.take(hk as int) + payload);
    assert forall|i: int| 0 <= i < items.len() implies item_wf(#[trigger] items[i]) by {
        lemma_parse_items_wf(payload, i);
    }
}

/// A bound on the length of the encoding of an entry with `keys` keys: the
/// list header, the address and the list of keys.
pub open spec fn item_len_bound(keys: nat) -> nat {
    MAX_HEADER_LENGTH as nat + 21 + fixed_list_len_bound(keys, 32)
}

/// The bounds on the encodings of the entries, added up.
pub open spec fn items_len_bound(items: Seq<AccessListItemView>) -> nat
    decreases items.len(),
{
    if items.len() == 0 {
        0
    } else {
        items_len_bound(items.drop_last()) + item_len_bound(items.last().storage_keys.len())
    }
}

/// A bound on the length of the encoding of an access list.
pub open spec fn access_list_len_bound(items: Seq<AccessListItemView>) -> nat {
    MAX_HEADER_LENGTH as nat + items_len_bound(items)
}

/// The widths of an entry are those of an address and of storage keys.
pub open spec fn item_widths(item: AccessListItemView) -> bool {
    &&& item.address.len() == 20
    &&& forall|i: int|
        0 <= i < item.storage_keys.len() ==> (#[trigger] item.storage_keys[i]).len() == 32
}

/// The encoding of an entry is no longer than `item_len_bound` says.
pub proof fn lemma_item_len_bound(item: AccessListItemView)
    requires
        item_widths(item),
        item_len_bound(item.storage_keys.len()) <= usize::MAX,
    ensures
        item_bytes(item).len() <= item_len_bound(item.storage_keys.len()),
{
    lemma_fixed_list_len_bound(item.storage_keys, 32);
    lemma_str_bytes_len(item.address);
    lemma_header_bytes_len(true, item_payload(item).len());
}

/// The encoding of an access list is no longer than `access_list_len_bound`
/// says.
pub proof fn lemma_access_list_len_bound(items: Seq<AccessListItemView>)
    requires
        forall|i: int| 0 <= i < items.len() ==> item_widths(#[trigger] items[i]),
        access_list_len_bound(items) <= usize::MAX,
    ensures
        items_bytes(items).len() <= items_len_bound(items),
        access_list_bytes(items).len() <= access_list_len_bound(items),
    decreases items.len(),
{
    if items.len() == 0 {
        lemma_items_bytes_prefix(items, 0);
        assert(items.take(0) =~= items);
    } else {
        let n = items.len() - 1;
        assert(items.take(n) =~= items.drop_last());
        assert forall|i: int| 0 <= i < items.drop_last().len() implies item_widths(
            #[trigger] items.drop_last()[i],
        ) by {
            assert(items.drop_last()[i] == items[i]);
        }
        lemma_access_list_len_bound(items.drop_last());
        lemma_items_bytes_prefix(items, n);
        assert(items.take(n + 1) =~= items);
        lemma_item_len_bound(items[n]);
    }
    lemma_header_bytes_len(true, items_bytes(items).len());
}

impl AccessList {
    /// A bound on the length of the encoding of the access list, or nothing
    /// where the bound is larger than any machine word.
    pub fn length_bound(&self) -> (bound: Option<usize>)
        ensures
            bound == fitting(access_list_len_bound(self@)),
            bound is Some ==> access_list_bytes(self@).len() <= bound->Some_0,
    {
        let mut total: Option<usize> = Some(MAX_HEADER_LENGTH);
        let mut i: usize = 0;
        assert(self@.take(0) =~= Seq::<AccessListItemView>::empty());
        while i < self.0.len()
            invariant
                i <= self.0@.len(),
                total == fitting(access_list_len_bound(self@.take(i as int))),
            decreases self.0@.len() - i,
        {
            proof {
                let next = self@.take(i + 1);
                assert(next.drop_last() =~= self@.take(i as int));
                assert(next.last() == self.0@[i as int]@);
            }
            let keys: Option<usize> = fixed_list_length_bound(&self.0[i].storage_keys);
            total = fitting_sum(total, fitting_sum(Some(MAX_HEADER_LENGTH + 21), keys));
            i += 1;
        }
        proof {
            assert(self@.take(i as int) =~= self@);
            if total is Some {
                assert forall|k: int| 0 <= k < self@.len() implies item_widths(
                    #[trigger] self@[k],
                ) by {
                    let item = self.0@[k];
                    assert(self@[k] == item@);
                    assert forall|j: int| 0 <= j < item@.storage_keys.len() implies (
                    #[trigger] item@.storage_keys[j]).len() == 32 by {
                        assert(item@.storage_keys[j] == item.storage_keys@[j]@);
                    }
                }
                lemma_access_list_len_bound(self@);
            }
        }
        total
    }
}

} // verus!
