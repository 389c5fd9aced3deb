//! The body of a blob transaction: the fields that are signed and hashed.

use crate::access_list::{
    access_list_bytes, access_list_size, access_list_wf, items_bytes,
    lemma_parse_access_list_bytes, lemma_parse_access_list_canonical, parse_access_list,
    AccessList, AccessListItemView,
};
use crate::primitives::{saturated, saturating_product, DATA_GAS_PER_BLOB, H256};
use crate::rlp::bigendian::lemma_pow256_values;
use crate::rlp::concat::{lemma_advance, lemma_join_assoc, lemma_split_joined};
use crate::rlp::error::DecodeError;
use crate::rlp::header::lemma_header_bytes_len;
use crate::rlp::list::{
    decode_fixed_list, encode_fixed_list, fixed_list_length, lemma_parse_fixed_list_bytes,
    lemma_parse_fixed_list_canonical, parse_fixed_list, str_items_bytes, str_list_bytes, views,
};
use crate::rlp::string::{
    decode_str, encode_str, lemma_parse_str_bytes, lemma_parse_str_canonical, parse_str, str_bytes,
    str_length,
};
use crate::rlp::uint::{
    decode_u128, decode_u64, encode_u64, encode_uint, lemma_parse_uint_bytes,
    lemma_parse_uint_canonical, parse_uint, uint_bytes, uint_length,
};
use crate::transaction_kind::{
    kind_bytes, lemma_parse_kind_bytes, lemma_parse_kind_canonical, parse_kind, TransactionKind,
    TRANSACTION_KIND_SIZE,
};
use vstd::prelude::*;

verus! {

/// A transaction that carries blobs: besides the fields of a fee-market
/// transaction it declares the versioned hashes of its blobs and the most it
/// pays per unit of blob gas.
#[derive(Clone, Debug, PartialEq, Eq, Hash, Default)]
pub struct TxEip4844 {
    /// The chain that the transaction is meant for.
    pub chain_id: u64,
    /// The number of transactions that the sender has sent before.
    pub nonce: u64,
    /// The most gas that executing the transaction may use.
    pub gas_limit: u64,
    /// The most that the sender pays per unit of gas, base fee included.
    pub max_fee_per_gas: u128,
    /// The most that the sender pays per unit of gas on top of the base fee.
    pub max_priority_fee_per_gas: u128,
    /// The recipient, or none where a contract is created.
    pub to: TransactionKind,
    /// The amount transferred to the recipient.
    pub value: u128,
    /// The addresses and storage keys that the transaction will touch.
    pub access_list: AccessList,
    /// The versioned hash of each blob, in the order of the blobs.
    pub blob_versioned_hashes: Vec<H256>,
    /// The most that the sender pays per unit of blob gas.
    pub max_fee_per_blob_gas: u128,
    /// The call data, or the code that initialises a new contract.
    pub input: Vec<u8>,
}

/// What a blob transaction body holds.
pub struct TxEip4844View {
    pub chain_id: u64,
    pub nonce: u64,
    pub gas_limit: u64,
    pub max_fee_per_gas: u128,
    pub max_priority_fee_per_gas: u128,
    pub to: Option<Seq<u8>>,
    pub value: u128,
    pub access_list: Seq<AccessListItemView>,
    pub blob_versioned_hashes: Seq<Seq<u8>>,
    pub max_fee_per_blob_gas: u128,
    pub input: Seq<u8>,
}

impl View for TxEip4844 {
    type V = TxEip4844View;

    open spec fn view(&self) -> TxEip4844View {
        TxEip4844View {
            chain_id: self.chain_id,
            nonce: self.nonce,
            gas_limit: self.gas_limit,
            max_fee_per_gas: self.max_fee_per_gas,
            max_priority_fee_per_gas: self.max_priority_fee_per_gas,
            to: self.to@,
            value: self.value,
            access_list: self.access_list@,
            blob_versioned_hashes: views(self.blob_versioned_hashes@),
            max_fee_per_blob_gas: self.max_fee_per_blob_gas,
            input: self.input@,
        }
    }
}

/// The bytes that the fixed-width fields of a body take in memory: three
/// 64-bit and four 128-bit numbers.
pub const FIXED_FIELDS_SIZE: usize = 88;

impl TxEip4844View {
    /// The price per unit of gas that the transaction pays under `base_fee`:
    /// the base fee and the priority fee together, but no more than the
    /// sender's cap. Without a base fee it is the cap.
    pub open spec fn effective_gas_price(self, base_fee: Option<u64>) -> int {
        match base_fee {
            None => self.max_fee_per_gas as int,
            Some(base) => if self.max_priority_fee_per_gas + base < self.max_fee_per_gas {
                self.max_priority_fee_per_gas + base
            } else {
                self.max_fee_per_gas as int
            },
        }
    }

    /// The data gas of all blobs of the transaction.
    pub open spec fn blob_gas(self) -> int {
        self.blob_versioned_hashes.len() * DATA_GAS_PER_BLOB
    }

    /// The heuristic size in memory of a body whose hash list has room for
    /// `hash_capacity` hashes.
    pub open spec fn size_with_capacity(self, hash_capacity: nat) -> nat {
        FIXED_FIELDS_SIZE as nat + TRANSACTION_KIND_SIZE as nat + access_list_size(
            self.access_list,
        ) + self.input.len() + hash_capacity * 32
    }
}

/// The room that the hash list has.
///
/// Calls `Vec::capacity`. Two claims are made, both of which std documents
/// of every vector: its capacity is at least its length, and it never
/// allocates more than `isize::MAX` bytes, of which each hash takes 32. How
/// much room there is within these bounds depends on the allocator.
#[verifier::external_body]
fn hash_capacity(hashes: &Vec<H256>) -> (capacity: usize)
    ensures
        capacity >= hashes@.len(),
        capacity * 32 <= isize::MAX,
{
    hashes.capacity()
}

impl TxEip4844 {
    /// The price per unit of gas that the transaction pays under `base_fee`.
    pub fn effective_gas_price(&self, base_fee: Option<u64>) -> (price: u128)
        ensures
            price == self@.effective_gas_price(base_fee),
            base_fee is None ==> price == self.max_fee_per_gas,
            price <= self.max_fee_per_gas,
    {
        match base_fee {
            None => self.max_fee_per_gas,
            Some(base_fee) => {
                let tip: u128 = self.max_fee_per_gas.saturating_sub(base_fee as u128);
                if tip > self.max_priority_fee_per_gas {
                    self.max_priority_fee_per_gas + base_fee as u128
                } else {
                    self.max_fee_per_gas
                }
            },
        }
    }

    /// The data gas of all blobs of the transaction.
    pub fn blob_gas(&self) -> (gas: u64)
        requires
            self@.blob_gas() <= u64::MAX,
        ensures
            gas == self@.blob_gas(),
            gas == self.blob_versioned_hashes@.len() * DATA_GAS_PER_BLOB,
    {
        self.blob_versioned_hashes.len() as u64 * DATA_GAS_PER_BLOB
    }

    /// A heuristic for the size in memory of the body with a hash list that
    /// has room for `hash_capacity` hashes: the fixed-width fields, the
    /// recipient, the access list, the input, and 32 bytes for each hash that
    /// there is room for. The sum is capped at the largest machine word.
    pub fn size_with_hash_capacity(&self, hash_capacity: usize) -> (n: usize)
        ensures
            n == saturated(self@.size_with_capacity(hash_capacity as nat)),
    {
        (FIXED_FIELDS_SIZE + self.to.size()).saturating_add(self.access_list.size()).saturating_add(
            self.input.len(),
        ).saturating_add(saturating_product(hash_capacity, 32))
    }

    /// A heuristic for the size of the body in memory, capped at the largest
    /// machine word. The hash list counts with the room it has, which is at
    /// least its length and takes no more than `isize::MAX` bytes.
    pub fn size(&self) -> (n: usize)
        ensures
            exists|capacity: nat|
                {
                    &&& capacity >= self.blob_versioned_hashes@.len()
                    &&& capacity * 32 <= isize::MAX
                    &&& n == saturated(#[trigger] self@.size_with_capacity(capacity))
                },
    {
        let capacity: usize = hash_capacity(&self.blob_versioned_hashes);
        let n: usize = self.size_with_hash_capacity(capacity);
        assert(n == saturated(self@.size_with_capacity(capacity as nat)));
        n
    }
}

/// The encoded fields of a body, in their fixed order and without a list
/// header around them.
pub open spec fn fields_bytes(body: TxEip4844View) -> Seq<u8> {
    uint_bytes(body.chain_id as nat) + uint_bytes(body.nonce as nat) + uint_bytes(
        body.max_priority_fee_per_gas as nat,
    ) + uint_bytes(body.max_fee_per_gas as nat) + uint_bytes(body.gas_limit as nat) + kind_bytes(
        body.to,
    ) + uint_bytes(body.value as nat) + str_bytes(body.input) + access_list_bytes(
        body.access_list,
    ) + uint_bytes(body.max_fee_per_blob_gas as nat) + str_list_bytes(body.blob_versioned_hashes)
}

/// A body whose recipient has 20 bytes and whose hashes have 32, with a
/// well-formed access list and with encoded parts of lengths that a machine
/// word holds. The view of every `TxEip4844` that can be encoded is one.
pub open spec fn body_wf(body: TxEip4844View) -> bool {
    &&& body.to is Some ==> body.to->Some_0.len() == 20
    &&& access_list_wf(body.access_list)
    &&& forall|i: int|
        0 <= i < body.blob_versioned_hashes.len() ==> (
        #[trigger] body.blob_versioned_hashes[i]).len() == 32
    &&& str_items_bytes(body.blob_versioned_hashes).len() <= usize::MAX
    &&& body.input.len() <= usize::MAX
}

/// Reads the fields of a body from the start of `s`, in their fixed order:
/// the body and the number of bytes the fields took. The list header that
/// precedes them is the caller's to read.
pub open spec fn parse_fields(s: Seq<u8>) -> Result<(TxEip4844View, nat), DecodeError> {
    match parse_uint(s, 8) {
        Err(e) => Err(e),
        Ok((chain_id, k0)) => {
            let s1 = s.skip(k0 as int);
            match parse_uint(s1, 8) {
                Err(e) => Err(e),
                Ok((nonce, k1)) => {
                    let s2 = s1.skip(k1 as int);
                    match parse_uint(s2, 16) {
                        Err(e) => Err(e),
                        Ok((max_priority_fee_per_gas, k2)) => {
                            let s3 = s2.skip(k2 as int);
                            match parse_uint(s3, 16) {
                                Err(e) => Err(e),
                                Ok((max_fee_per_gas, k3)) => {
                                    let s4 = s3.skip(k3 as int);
                                    match parse_uint(s4, 8) {
                                        Err(e) => Err(e),
                                        Ok((gas_limit, k4)) => match parse_fields_from_recipient(
                                            s4.skip(k4 as int),
                                        ) {
                                            Err(e) => Err(e),
                                            Ok((tail, k)) => Ok(
                                                (
                                                    TxEip4844View {
                                                        chain_id: chain_id as u64,
                                                        nonce: nonce as u64,
                                                        gas_limit: gas_limit as u64,
                                                        max_fee_per_gas: max_fee_per_gas as u128,
                                                        max_priority_fee_per_gas:
                                                            max_priority_fee_per_gas as u128,
                                                        ..tail
                                                    },
                                                    k0 + k1 + k2 + k3 + k4 + k,
                                                ),
                                            ),
                                        },
                                    }
                                },
                            }
                        },
                    }
                },
            }
        },
    }
}

/// Reads the fields from the recipient on from the start of `s`. The five
/// numbers that precede the recipient are zero in the body handed back.
pub open spec fn parse_fields_from_recipient(s: Seq<u8>) -> Result<
    (TxEip4844View, nat),
    DecodeError,
> {
    match parse_kind(s) {
        Err(e) => Err(e),
        Ok((to, k5)) => {
            let s6 = s.skip(k5 as int);
            match parse_uint(s6, 16) {
                Err(e) => Err(e),
                Ok((value, k6)) => {
                    let s7 = s6.skip(k6 as int);
                    match parse_str(s7) {
                        Err(e) => Err(e),
                        Ok((input, k7)) => {
                            let s8 = s7.skip(k7 as int);
                            match parse_access_list(s8) {
                                Err(e) => Err(e),
                                Ok((access_list, k8)) => {
                                    let s9 = s8.skip(k8 as int);
                                    match parse_uint(s9, 16) {
                                        Err(e) => Err(e),
                                        Ok((max_fee_per_blob_gas, k9)) => match parse_fixed_list(
                                            s9.skip(k9 as int),
                                            32,
                                        ) {
                                            Err(e) => Err(e),
                                            Ok((blob_versioned_hashes, k10)) => Ok(
                                                (
                                                    TxEip4844View {
                                                        chain_id: 0,
                                                        nonce: 0,
                                                        gas_limit: 0,
                                                        max_fee_per_gas: 0,
                                                        max_priority_fee_per_gas: 0,
                                                        to,
                                                        value: value as u128,
                                                        access_list,
                                                        blob_versioned_hashes,
                                                        max_fee_per_blob_gas:
                                                            max_fee_per_blob_gas as u128,
                                                        input,
                                                    },
                                                    k5 + k6 + k7 + k8 + k9 + k10,
                                                ),
                                            ),
                                        },
                                    }
                                },
                            }
                        },
                    }
                },
            }
        },
    }
}

impl TxEip4844 {
    /// The number of bytes that `encode_fields` writes.
    pub fn fields_len(&self) -> (n: usize)
        requires
            fields_bytes(self@).len() <= usize::MAX,
        ensures
            n == fields_bytes(self@).len(),
    {
        let mut n: usize = uint_length(self.chain_id as u128);
        n = n + uint_length(self.nonce as u128);
        n = n + uint_length(self.max_priority_fee_per_gas);
        n = n + uint_length(self.max_fee_per_gas);
        n = n + uint_length(self.gas_limit as u128);
        n = n + self.to.length();
        n = n + uint_length(self.value);
        n = n + str_length(self.input.as_slice());
        n = n + self.access_list.length();
        n = n + uint_length(self.max_fee_per_blob_gas);
        n = n + fixed_list_length(&self.blob_versioned_hashes);
        n
    }

    /// Appends the encoded fields to `out`, in their fixed order and without
    /// a list header.
    pub fn encode_fields(&self, out: &mut Vec<u8>)
        requires
            fields_bytes(self@).len() <= usize::MAX,
        ensures
            final(out)@ == old(out)@ + fields_bytes(self@),
    {
        proof {
            lemma_header_bytes_len(true, items_bytes(self@.access_list).len());
            lemma_header_bytes_len(true, str_items_bytes(self@.blob_versioned_hashes).len());
        }
        let ghost body = self@;
        let ghost start = out@;
        let ghost mut done: Seq<u8> = Seq::empty();
        assert(out@ =~= start + done);
        encode_u64(self.chain_id, out);
        proof {
            lemma_join_assoc(start, done, uint_bytes(body.chain_id as nat));
            done = done + uint_bytes(body.chain_id as nat);
        }
        assert(done =~= uint_bytes(body.chain_id as nat));
        encode_u64(self.nonce, out);
        proof {
            lemma_join_assoc(start, done, uint_bytes(body.nonce as nat));
            done = done + uint_bytes(body.nonce as nat);
        }
        encode_uint(self.max_priority_fee_per_gas, out);
        proof {
            lemma_join_assoc(start, done, uint_bytes(body.max_priority_fee_per_gas as nat));
            done = done + uint_bytes(body.max_priority_fee_per_gas as nat);
        }
        encode_uint(self.max_fee_per_gas, out);
        proof {
            lemma_join_assoc(start, done, uint_bytes(body.max_fee_per_gas as nat));
            done = done + uint_bytes(body.max_fee_per_gas as nat);
        }
        encode_u64(self.gas_limit, out);
        proof {
            lemma_join_assoc(start, done, uint_bytes(body.gas_limit as nat));
            done = done + uint_bytes(body.gas_limit as nat);
        }
        self.to.encode(out);
        proof {
            lemma_join_assoc(start, done, kind_bytes(body.to));
            done = done + kind_bytes(body.to);
        }
        encode_uint(self.value, out);
        proof {
            lemma_join_assoc(start, done, uint_bytes(body.value as nat));
            done = done + uint_bytes(body.value as nat);
        }
        encode_str(self.input.as_slice(), out);
        proof {
            lemma_join_assoc(start, done, str_bytes(body.input));
            done = done + str_bytes(body.input);
        }
        self.access_list.encode(out);
        proof {
            lemma_join_assoc(start, done, access_list_bytes(body.access_list));
            done = done + access_list_bytes(body.access_list);
        }
        encode_uint(self.max_fee_per_blob_gas, out);
        proof {
            lemma_join_assoc(start, done, uint_bytes(body.max_fee_per_blob_gas as nat));
            done = done + uint_bytes(body.max_fee_per_blob_gas as nat);
        }
        encode_fixed_list(&self.blob_versioned_hashes, out);
        proof {
            lemma_join_assoc(start, done, str_list_bytes(body.blob_versioned_hashes));
            done = done + str_list_bytes(body.blob_versioned_hashes);
        }
        assert(done == fields_bytes(body)) by {
            assert(Seq::<u8>::empty() + uint_bytes(body.chain_id as nat) =~= uint_bytes(
                body.chain_id as nat,
            ));
        }
    }

    /// Reads the fields of a body from the front of `buf`, in their fixed
    /// order, and moves `buf` past them. The list header that precedes them
    /// is the caller's to read. A refused input leaves `buf` where it was.
    pub fn decode_inner(buf: &mut &[u8]) -> (r: Result<TxEip4844, DecodeError>)
        ensures
            match parse_fields(old(buf)@) {
                Ok((body, k)) => r is Ok && r->Ok_0@ == body && final(buf)@ == old(buf)@.skip(
                    k as int,
                ),
                Err(e) => r == Err::<TxEip4844, DecodeError>(e) && *final(buf) == *old(buf),
            },
    {
        let input: &[u8] = *buf;
        let mut rest: &[u8] = input;
        let ghost s0 = input@;
        let chain_id: u64 = match decode_u64(&mut rest) {
            Ok(v) => v,
            Err(e) => {
                return Err(e);
            },
        };
        let ghost s1 = rest@;
        let nonce: u64 = match decode_u64(&mut rest) {
            Ok(v) => v,
            Err(e) => {
                return Err(e);
            },
        };
        let ghost s2 = rest@;
        let max_priority_fee_per_gas: u128 = match decode_u128(&mut rest) {
            Ok(v) => v,
            Err(e) => {
                return Err(e);
            },
        };
        let ghost s3 = rest@;
        let max_fee_per_gas: u128 = match decode_u128(&mut rest) {
            Ok(v) => v,
            Err(e) => {
                return Err(e);
            },
        };
        let ghost s4 = rest@;
        let gas_limit: u64 = match decode_u64(&mut rest) {
            Ok(v) => v,
            Err(e) => {
                return Err(e);
            },
        };
        let ghost s5 = rest@;
        let mut body: TxEip4844 = match Self::decode_from_recipient(&mut rest) {
            Ok(v) => v,
            Err(e) => {
                return Err(e);
            },
        };
        proof {
            lemma_parse_uint_canonical(s0, 8);
            lemma_parse_uint_canonical(s1, 8);
            lemma_parse_uint_canonical(s2, 16);
            lemma_parse_uint_canonical(s3, 16);
            lemma_parse_uint_canonical(s4, 8);
            lemma_parse_fields_from_recipient_canonical(s5);
            let k0 = parse_uint(s0, 8)->Ok_0.1;
            let k1 = parse_uint(s1, 8)->Ok_0.1;
            let k2 = parse_uint(s2, 16)->Ok_0.1;
            let k3 = parse_uint(s3, 16)->Ok_0.1;
            let k4 = parse_uint(s4, 8)->Ok_0.1;
            let k = parse_fields_from_recipient(s5)->Ok_0.1;
            lemma_advance(s0, k0, k1);
            lemma_advance(s0, k0 + k1, k2);
            lemma_advance(s0, k0 + k1 + k2, k3);
            lemma_advance(s0, k0 + k1 + k2 + k3, k4);
            lemma_advance(s0, k0 + k1 + k2 + k3 + k4, k);
        }
        *buf = rest;
        body.chain_id = chain_id;
        body.nonce = nonce;
        body.max_priority_fee_per_gas = max_priority_fee_per_gas;
        body.max_fee_per_gas = max_fee_per_gas;
        body.gas_limit = gas_limit;
        Ok(body)
    }

    /// Reads the fields from the recipient on from the front of `buf` and
    /// moves `buf` past them. The five numbers that precede the recipient are
    /// zero in the body handed back.
    fn decode_from_recipient(buf: &mut &[u8]) -> (r: Result<TxEip4844, DecodeError>)
        ensures
            match parse_fields_from_recipient(old(buf)@) {
                Ok((body, k)) => r is Ok && r->Ok_0@ == body && final(buf)@ == old(buf)@.skip(
                    k as int,
                ),
                Err(e) => r == Err::<TxEip4844, DecodeError>(e) && *final(buf) == *old(buf),
            },
    {
        let input: &[u8] = *buf;
        let mut rest: &[u8] = input;
        let ghost s5 = input@;
        let to: TransactionKind = match TransactionKind::decode(&mut rest) {
            Ok(v) => v,
            Err(e) => {
                return Err(e);
            },
        };
        let ghost s6 = rest@;
        let value: u128 = match decode_u128(&mut rest) {
            Ok(v) => v,
            Err(e) => {
                return Err(e);
            },
        };
        let ghost s7 = rest@;
        let data: Vec<u8> = match decode_str(&mut rest) {
            Ok(v) => v,
            Err(e) => {
                return Err(e);
            },
        };
        let ghost s8 = rest@;
        let access_list: AccessList = match AccessList::decode(&mut rest) {
            Ok(v) => v,
            Err(e) => {
                return Err(e);
            },
        };
        let ghost s9 = rest@;
        let max_fee_per_blob_gas: u128 = match decode_u128(&mut rest) {
            Ok(v) => v,
            Err(e) => {
                return Err(e);
            },
        };
        let ghost s10 = rest@;
        let blob_versioned_hashes: Vec<H256> = match decode_fixed_list::<32>(&mut rest) {
            Ok(v) => v,
            Err(e) => {
                return Err(e);
            },
        };
        proof {
            lemma_parse_kind_canonical(s5);
            lemma_parse_uint_canonical(s6, 16);
            lemma_parse_str_canonical(s7);
            lemma_parse_access_list_canonical(s8);
            lemma_parse_uint_canonical(s9, 16);
            lemma_parse_fixed_list_canonical(s10, 32);
            let k5 = parse_kind(s5)->Ok_0.1;
            let k6 = parse_uint(s6, 16)->Ok_0.1;
            let k7 = parse_str(s7)->Ok_0.1;
            let k8 = parse_access_list(s8)->Ok_0.1;
            let k9 = parse_uint(s9, 16)->Ok_0.1;
            let k10 = parse_fixed_list(s10, 32)->Ok_0.1;
            lemma_advance(s5, k5, k6);
            lemma_advance(s5, k5 + k6, k7);
            lemma_advance(s5, k5 + k6 + k7, k8);
            lemma_advance(s5, k5 + k6 + k7 + k8, k9);
            lemma_advance(s5, k5 + k6 + k7 + k8 + k9, k10);
        }
        *buf = rest;
        Ok(
            TxEip4844 {
                chain_id: 0,
                nonce: 0,
                gas_limit: 0,
                max_fee_per_gas: 0,
                max_priority_fee_per_gas: 0,
                to,
                value,
                access_list,
                blob_versioned_hashes,
                max_fee_per_blob_gas,
                input: data,
            },
        )
    }
}

/// What `parse_fields_from_recipient` accepts lies within the input.
proof fn lemma_parse_fields_from_recipient_canonical(s: Seq<u8>)
    requires
        parse_fields_from_recipient(s) is Ok,
    ensures
        6 <= parse_fields_from_recipient(s)->Ok_0.1 <= s.len(),
{
    let k5 = parse_kind(s)->Ok_0.1;
    let s6 = s.skip(k5 as int);
    let k6 = parse_uint(s6, 16)->Ok_0.1;
    let s7 = s6.skip(k6 as int);
    let k7 = parse_str(s7)->Ok_0.1;
    let s8 = s7.skip(k7 as int);
    let k8 = parse_access_list(s8)->Ok_0.1;
    let s9 = s8.skip(k8 as int);
    let k9 = parse_uint(s9, 16)->Ok_0.1;
    let s10 = s9.skip(k9 as int);
    lemma_parse_kind_canonical(s);
    lemma_parse_uint_canonical(s6, 16);
    lemma_parse_str_canonical(s7);
    lemma_parse_access_list_canonical(s8);
    lemma_parse_uint_canonical(s9, 16);
    lemma_parse_fixed_list_canonical(s10, 32);
}

/// Reading what `fields_bytes` wrote for a well-formed body gives the body
/// back and stops right behind the fields.
pub proof fn lemma_parse_fields_bytes(body: TxEip4844View, rest: Seq<u8>)
    requires
        body_wf(body),
    ensures
        parse_fields(fields_bytes(body) + rest) == Ok::<(TxEip4844View, nat), DecodeError>(
            (body, fields_bytes(body).len()),
        ),
{
    let s = fields_bytes(body) + rest;
    let e0 = uint_bytes(body.chain_id as nat);
    let e1 = uint_bytes(body.nonce as nat);
    let e2 = uint_bytes(body.max_priority_fee_per_gas as nat);
    let e3 = uint_bytes(body.max_fee_per_gas as nat);
    let e4 = uint_bytes(body.gas_limit as nat);
    let e5 = kind_bytes(body.to);
    let e6 = uint_bytes(body.value as nat);
    let e7 = str_bytes(body.input);
    let e8 = access_list_bytes(body.access_list);
    let e9 = uint_bytes(body.max_fee_per_blob_gas as nat);
    let e10 = str_list_bytes(body.blob_versioned_hashes);
    let t11 = rest;
    let t10 = e10 + t11;
    let t9 = e9 + t10;
    let t8 = e8 + t9;
    let t7 = e7 + t8;
    let t6 = e6 + t7;
    let t5 = e5 + t6;
    let t4 = e4 + t5;
    let t3 = e3 + t4;
    let t2 = e2 + t3;
    let t1 = e1 + t2;
    let t0 = e0 + t1;
    assert(s == t0) by {
        let l1 = e0;
        let l2 = l1 + e1;
        let l3 = l2 + e2;
        let l4 = l3 + e3;
        let l5 = l4 + e4;
        let l6 = l5 + e5;
        let l7 = l6 + e6;
        let l8 = l7 + e7;
        let l9 = l8 + e8;
        let l10 = l9 + e9;
        let l11 = l10 + e10;
        lemma_join_assoc(l10, e10, t11);
        lemma_join_assoc(l9, e9, t10);
        lemma_join_assoc(l8, e8, t9);
        lemma_join_assoc(l7, e7, t8);
        lemma_join_assoc(l6, e6, t7);
        lemma_join_assoc(l5, e5, t6);
        lemma_join_assoc(l4, e4, t5);
        lemma_join_assoc(l3, e3, t4);
        lemma_join_assoc(l2, e2, t3);
        lemma_join_assoc(l1, e1, t2);
    }
    assert(parse_uint(t0, 8) == Ok::<(nat, nat), DecodeError>(
        (body.chain_id as nat, e0.len()),
    )
        && t0.skip(e0.len() as int) == t1) by {
        lemma_pow256_values();
        lemma_parse_uint_bytes(body.chain_id as nat, 8, t1);
        lemma_split_joined(e0, t1);
    }
    assert(parse_uint(t1, 8) == Ok::<(nat, nat), DecodeError>(
        (body.nonce as nat, e1.len()),
    )
        && t1.skip(e1.len() as int) == t2) by {
        lemma_pow256_values();
        lemma_parse_uint_bytes(body.nonce as nat, 8, t2);
        lemma_split_joined(e1, t2);
    }
    assert(parse_uint(t2, 16) == Ok::<(nat, nat), DecodeError>(
        (body.max_priority_fee_per_gas as nat, e2.len()),
    )
        && t2.skip(e2.len() as int) == t3) by {
        lemma_pow256_values();
        lemma_parse_uint_bytes(body.max_priority_fee_per_gas as nat, 16, t3);
        lemma_split_joined(e2, t3);
    }
    assert(parse_uint(t3, 16) == Ok::<(nat, nat), DecodeError>(
        (body.max_fee_per_gas as nat, e3.len()),
    )
        && t3.skip(e3.len() as int) == t4) by {
        lemma_pow256_values();
        lemma_parse_uint_bytes(body.max_fee_per_gas as nat, 16, t4);
        lemma_split_joined(e3, t4);
    }
    assert(parse_uint(t4, 8) == Ok::<(nat, nat), DecodeError>(
        (body.gas_limit as nat, e4.len()),
    )
        && t4.skip(e4.len() as int) == t5) by {
        lemma_pow256_values();
        lemma_parse_uint_bytes(body.gas_limit as nat, 8, t5);
        lemma_split_joined(e4, t5);
    }
    assert(parse_kind(t5) == Ok::<(Option<Seq<u8>>, nat), DecodeError>(
        (body.to, e5.len()),
    )
        && t5.skip(e5.len() as int) == t6) by {
        lemma_parse_kind_bytes(body.to, t6);
        lemma_split_joined(e5, t6);
    }
    assert(parse_uint(t6, 16) == Ok::<(nat, nat), DecodeError>(
        (body.value as nat, e6.len()),
    )
        && t6.skip(e6.len() as int) == t7) by {
        lemma_pow256_values();
        lemma_parse_uint_bytes(body.value as nat, 16, t7);
        lemma_split_joined(e6, t7);
    }
    assert(parse_str(t7) == Ok::<(Seq<u8>, nat), DecodeError>(
        (body.input, e7.len()),
    )
        && t7.skip(e7.len() as int) == t8) by {
        lemma_parse_str_bytes(body.input, t8);
        lemma_split_joined(e7, t8);
    }
    assert(parse_access_list(t8) == Ok::<(Seq<AccessListItemView>, nat), DecodeError>(
        (body.access_list, e8.len()),
    )
        && t8.skip(e8.len() as int) == t9) by {
        lemma_parse_access_list_bytes(body.access_list, t9);
        lemma_split_joined(e8, t9);
    }
    assert(parse_uint(t9, 16) == Ok::<(nat, nat), DecodeError>(
        (body.max_fee_per_blob_gas as nat, e9.len()),
    )
        && t9.skip(e9.len() as int) == t10) by {
        lemma_pow256_values();
        lemma_parse_uint_bytes(body.max_fee_per_blob_gas as nat, 16, t10);
        lemma_split_joined(e9, t10);
    }
    assert(parse_fixed_list(t10, 32) == Ok::<(Seq<Seq<u8>>, nat), DecodeError>(
        (body.blob_versioned_hashes, e10.len()),
    )
        && t10.skip(e10.len() as int) == t11) by {
        lemma_parse_fixed_list_bytes(body.blob_versioned_hashes, 32, t11);
        lemma_split_joined(e10, t11);
    }
    let tail = TxEip4844View {
        chain_id: 0,
        nonce: 0,
        gas_limit: 0,
        max_fee_per_gas: 0,
        max_priority_fee_per_gas: 0,
        ..body
    };
    let tail_len = e5.len() + e6.len() + e7.len() + e8.len() + e9.len() + e10.len();
    assert(parse_fields_from_recipient(t5) == Ok::<(TxEip4844View, nat), DecodeError>(
        (tail, tail_len),
    ));
}

/// The fields that `parse_fields` accepts are canonical: they make up a
/// well-formed body, and the bytes that were read are those that
/// `fields_bytes` writes for it.
pub proof fn lemma_parse_fields_canonical(s: Seq<u8>)
    requires
        parse_fields(s) is Ok,
    ensures
        ({
            let (body, k) = parse_fields(s)->Ok_0;
            &&& 11 <= k <= s.len()
            &&& body_wf(body)
            &&& s.take(k as int) == fields_bytes(body)
        }),
{
    let (body, k) = parse_fields(s)->Ok_0;
    let p0: nat = 0;
    let s0 = s;
    let l0 = Seq::<u8>::empty();
    assert(s.take(p0 as int) == l0 && s.skip(p0 as int) == s0) by {
        assert(s.take(0) =~= l0);
        assert(s.skip(0) =~= s);
    }
    let k0 = parse_uint(s0, 8)->Ok_0.1;
    let p1: nat = p0 + k0;
    let s1 = s0.skip(k0 as int);
    let e0 = uint_bytes(body.chain_id as nat);
    let l1 = l0 + e0;
    assert(k0 >= 1 && p1 <= s.len() && s.take(p1 as int) == l1 && s.skip(p1 as int) == s1) by {
        lemma_pow256_values();
        lemma_parse_uint_canonical(s0, 8);
        lemma_advance(s, p0, k0);
    }
    let k1 = parse_uint(s1, 8)->Ok_0.1;
    let p2: nat = p1 + k1;
    let s2 = s1.skip(k1 as int);
    let e1 = uint_bytes(body.nonce as nat);
    let l2 = l1 + e1;
    assert(k1 >= 1 && p2 <= s.len() && s.take(p2 as int) == l2 && s.skip(p2 as int) == s2) by {
        lemma_pow256_values();
        lemma_parse_uint_canonical(s1, 8);
        lemma_advance(s, p1, k1);
    }
    let k2 = parse_uint(s2, 16)->Ok_0.1;
    let p3: nat = p2 + k2;
    let s3 = s2.skip(k2 as int);
    let e2 = uint_bytes(body.max_priority_fee_per_gas as nat);
    let l3 = l2 + e2;
    assert(k2 >= 1 && p3 <= s.len() && s.take(p3 as int) == l3 && s.skip(p3 as int) == s3) by {
        lemma_pow256_values();
        lemma_parse_uint_canonical(s2, 16);
        lemma_advance(s, p2, k2);
    }
    let k3 = parse_uint(s3, 16)->Ok_0.1;
    let p4: nat = p3 + k3;
    let s4 = s3.skip(k3 as int);
    let e3 = uint_bytes(body.max_fee_per_gas as nat);
    let l4 = l3 + e3;
    assert(k3 >= 1 && p4 <= s.len() && s.take(p4 as int) == l4 && s.skip(p4 as int) == s4) by {
        lemma_pow256_values();
        lemma_parse_uint_canonical(s3, 16);
        lemma_advance(s, p3, k3);
    }
    let k4 = parse_uint(s4, 8)->Ok_0.1;
    let p5: nat = p4 + k4;
    let s5 = s4.skip(k4 as int);
    let e4 = uint_bytes(body.gas_limit as nat);
    let l5 = l4 + e4;
    assert(k4 >= 1 && p5 <= s.len() && s.take(p5 as int) == l5 && s.skip(p5 as int) == s5) by {
        lemma_pow256_values();
        lemma_parse_uint_canonical(s4, 8);
        lemma_advance(s, p4, k4);
    }
    let k5 = parse_kind(s5)->Ok_0.1;
    let p6: nat = p5 + k5;
    let s6 = s5.skip(k5 as int);
    let e5 = kind_bytes(body.to);
    let l6 = l5 + e5;
    assert(k5 >= 1
        && p6 <= s.len()
        && s.take(p6 as int) == l6
        && s.skip(p6 as int) == s6
        && (body.to is Some ==> body.to->Some_0.len() == 20)) by {
        lemma_parse_kind_canonical(s5);
        lemma_advance(s, p5, k5);
    }
    let k6 = parse_uint(s6, 16)->Ok_0.1;
    let p7: nat = p6 + k6;
    let s7 = s6.skip(k6 as int);
    let e6 = uint_bytes(body.value as nat);
    let l7 = l6 + e6;
    assert(k6 >= 1 && p7 <= s.len() && s.take(p7 as int) == l7 && s.skip(p7 as int) == s7) by {
        lemma_pow256_values();
        lemma_parse_uint_canonical(s6, 16);
        lemma_advance(s, p6, k6);
    }
    let k7 = parse_str(s7)->Ok_0.1;
    let p8: nat = p7 + k7;
    let s8 = s7.skip(k7 as int);
    let e7 = str_bytes(body.input);
    let l8 = l7 + e7;
    assert(k7 >= 1
        && p8 <= s.len()
        && s.take(p8 as int) == l8
        && s.skip(p8 as int) == s8
        && body.input.len() <= usize::MAX) by {
        lemma_parse_str_canonical(s7);
        lemma_advance(s, p7, k7);
    }
    let k8 = parse_access_list(s8)->Ok_0.1;
    let p9: nat = p8 + k8;
    let s9 = s8.skip(k8 as int);
    let e8 = access_list_bytes(body.access_list);
    let l9 = l8 + e8;
    assert(k8 >= 1
        && p9 <= s.len()
        && s.take(p9 as int) == l9
        && s.skip(p9 as int) == s9
        && access_list_wf(body.access_list)) by {
        lemma_parse_access_list_canonical(s8);
        lemma_advance(s, p8, k8);
    }
    let k9 = parse_uint(s9, 16)->Ok_0.1;
    let p10: nat = p9 + k9;
    let s10 = s9.skip(k9 as int);
    let e9 = uint_bytes(body.max_fee_per_blob_gas as nat);
    let l10 = l9 + e9;
    assert(k9 >= 1 && p10 <= s.len() && s.take(p10 as int) == l10 && s.skip(p10 as int) == s10) by {
        lemma_pow256_values();
        lemma_parse_uint_canonical(s9, 16);
        lemma_advance(s, p9, k9);
    }
    let k10 = parse_fixed_list(s10, 32)->Ok_0.1;
    let p11: nat = p10 + k10;
    let s11 = s10.skip(k10 as int);
    let e10 = str_list_bytes(body.blob_versioned_hashes);
    let l11 = l10 + e10;
    assert(k10 >= 1
        && p11 <= s.len()
        && s.take(p11 as int) == l11
        && s.skip(p11 as int) == s11
        && str_items_bytes(body.blob_versioned_hashes).len() <= usize::MAX
        && (forall|i: int|
        0 <= i < body.blob_versioned_hashes.len() ==> (
        #[trigger] body.blob_versioned_hashes[i]).len() == 32)) by {
        lemma_parse_fixed_list_canonical(s10, 32);
        lemma_advance(s, p10, k10);
    }
    assert(k == p11);
    assert(l1 =~= e0);
}

} // verus!
