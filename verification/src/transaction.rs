//! The kinds of transaction, and what each of them encodes as its fields.

use crate::access_list::{
    access_list_bytes, access_list_len_bound, items_bytes, AccessList, AccessListItemView,
};
use crate::body::{fields_bytes, TxEip4844, TxEip4844View};
use crate::primitives::{fitting, fitting_sum};
use crate::rlp::bigendian::lemma_pow256_values;
use crate::rlp::concat::lemma_join_assoc;
use crate::rlp::header::lemma_header_bytes_len;
use crate::rlp::list::{fixed_list_len_bound, fixed_list_length_bound, MAX_HEADER_LENGTH};
use crate::rlp::string::{encode_str, lemma_str_bytes_len, str_bytes, str_length};
use crate::rlp::uint::{
    encode_u64, encode_uint, lemma_uint_bytes_len, uint_bytes, uint_length,
};
use crate::transaction_kind::{kind_bytes, lemma_parse_kind_bytes, TransactionKind};
use vstd::prelude::*;

verus! {

/// The kind of a transaction, as the type byte of its encoding tells it.
#[derive(Clone, Copy, Debug, PartialEq, Eq, Hash, Default, Structural)]
pub enum TxType {
    /// A legacy transaction: type 0.
    #[default]
    Legacy,
    /// An access-list transaction: type 1.
    EIP2930,
    /// A fee-market transaction: type 2.
    EIP1559,
    /// A blob transaction: type 3.
    EIP4844,
}

impl TxType {
    /// The type byte.
    pub open spec fn id(self) -> u8 {
        match self {
            TxType::Legacy => 0,
            TxType::EIP2930 => 1,
            TxType::EIP1559 => 2,
            TxType::EIP4844 => 3,
        }
    }

    /// The type byte.
    pub fn to_u8(self) -> (id: u8)
        ensures
            id == self.id(),
    {
        match self {
            TxType::Legacy => 0,
            TxType::EIP2930 => 1,
            TxType::EIP1559 => 2,
            TxType::EIP4844 => 3,
        }
    }
}

/// A transaction of the first kind, with a single gas price.
#[derive(Clone, Debug, PartialEq, Eq, Hash, Default)]
pub struct TxLegacy {
    /// The chain that the transaction is meant for, if it names one.
    pub chain_id: Option<u64>,
    /// The number of transactions that the sender has sent before.
    pub nonce: u64,
    /// The price that the sender pays per unit of gas.
    pub gas_price: u128,
    /// The most gas that executing the transaction may use.
    pub gas_limit: u64,
    /// The recipient, or none where a contract is created.
    pub to: TransactionKind,
    /// The amount transferred to the recipient.
    pub value: u128,
    /// The call data, or the code that initialises a new contract.
    pub input: Vec<u8>,
}

/// What a `TxLegacy` holds.
pub struct TxLegacyView {
    pub chain_id: Option<u64>,
    pub nonce: u64,
    pub gas_price: u128,
    pub gas_limit: u64,
    pub to: Option<Seq<u8>>,
    pub value: u128,
    pub input: Seq<u8>,
}

impl View for TxLegacy {
    type V = TxLegacyView;

    open spec fn view(&self) -> TxLegacyView {
        TxLegacyView {
            chain_id: self.chain_id,
            nonce: self.nonce,
            gas_price: self.gas_price,
            gas_limit: self.gas_limit,
            to: self.to@,
            value: self.value,
            input: self.input@,
        }
    }
}

/// The encoded fields of a legacy transaction, in their fixed order. The chain
/// is not among them: it travels in the signature.
pub open spec fn legacy_fields_bytes(tx: TxLegacyView) -> Seq<u8> {
    uint_bytes(tx.nonce as nat)
        + uint_bytes(tx.gas_price as nat)
        + uint_bytes(tx.gas_limit as nat)
        + kind_bytes(tx.to)
        + uint_bytes(tx.value as nat)
        + str_bytes(tx.input)
}

impl TxLegacy {
    /// The number of bytes that `encode_fields` writes.
    pub fn fields_len(&self) -> (n: usize)
        requires
            legacy_fields_bytes(self@).len() <= usize::MAX,
        ensures
            n == legacy_fields_bytes(self@).len(),
    {
        let mut n: usize = uint_length(self.nonce as u128);
        n = n + uint_length(self.gas_price);
        n = n + uint_length(self.gas_limit as u128);
        n = n + self.to.length();
        n = n + uint_length(self.value);
        n = n + str_length(self.input.as_slice());
        n
    }

    /// Appends the encoded fields to `out`, in their fixed order and without
    /// a list header.
    pub fn encode_fields(&self, out: &mut Vec<u8>)
        requires
            legacy_fields_bytes(self@).len() <= usize::MAX,
        ensures
            final(out)@ == old(out)@ + legacy_fields_bytes(self@),
    {
        let ghost tx = self@;
        let ghost start = out@;
        let ghost mut done: Seq<u8> = Seq::empty();
        assert(out@ =~= start + done);
        encode_u64(self.nonce, out);
        proof {
            lemma_join_assoc(start, done, uint_bytes(tx.nonce as nat));
            done = done + uint_bytes(tx.nonce as nat);
        }
        assert(done =~= uint_bytes(tx.nonce as nat));
        encode_uint(self.gas_price, out);
        proof {
            lemma_join_assoc(start, done, uint_bytes(tx.gas_price as nat));
            done = done + uint_bytes(tx.gas_price as nat);
        }
        encode_u64(self.gas_limit, out);
        proof {
            lemma_join_assoc(start, done, uint_bytes(tx.gas_limit as nat));
            done = done + uint_bytes(tx.gas_limit as nat);
        }
        self.to.encode(out);
        proof {
            lemma_join_assoc(start, done, kind_bytes(tx.to));
            done = done + kind_bytes(tx.to);
        }
        encode_uint(self.value, out);
        proof {
            lemma_join_assoc(start, done, uint_bytes(tx.value as nat));
            done = done + uint_bytes(tx.value as nat);
        }
        encode_str(self.input.as_slice(), out);
        proof {
            lemma_join_assoc(start, done, str_bytes(tx.input));
            done = done + str_bytes(tx.input);
        }
        assert(done == legacy_fields_bytes(tx));
    }
}

/// A transaction with an access list and a single gas price.
#[derive(Clone, Debug, PartialEq, Eq, Hash, Default)]
pub struct TxEip2930 {
    /// The chain that the transaction is meant for.
    pub chain_id: u64,
    /// The number of transactions that the sender has sent before.
    pub nonce: u64,
    /// The price that the sender pays per unit of gas.
    pub gas_price: u128,
    /// The most gas that executing the transaction may use.
    pub gas_limit: u64,
    /// The recipient, or none where a contract is created.
    pub to: TransactionKind,
    /// The amount transferred to the recipient.
    pub value: u128,
    /// The addresses and storage keys that the transaction will touch.
    pub access_list: AccessList,
    /// The call data, or the code that initialises a new contract.
    pub input: Vec<u8>,
}

/// What a `TxEip2930` holds.
pub struct TxEip2930View {
    pub chain_id: u64,
    pub nonce: u64,
    pub gas_price: u128,
    pub gas_limit: u64,
    pub to: Option<Seq<u8>>,
    pub value: u128,
    pub access_list: Seq<AccessListItemView>,
    pub input: Seq<u8>,
}

impl View for TxEip2930 {
    type V = TxEip2930View;

    open spec fn view(&self) -> TxEip2930View {
        TxEip2930View {
            chain_id: self.chain_id,
            nonce: self.nonce,
            gas_price: self.gas_price,
            gas_limit: self.gas_limit,
            to: self.to@,
            value: self.value,
            access_list: self.access_list@,
            input: self.input@,
        }
    }
}

/// The encoded fields of an access-list transaction, in their fixed order.
pub open spec fn eip2930_fields_bytes(tx: TxEip2930View) -> Seq<u8> {
    uint_bytes(tx.chain_id as nat)
        + uint_bytes(tx.nonce as nat)
        + uint_bytes(tx.gas_price as nat)
        + uint_bytes(tx.gas_limit as nat)
        + kind_bytes(tx.to)
        + uint_bytes(tx.value as nat)
        + str_bytes(tx.input)
        + access_list_bytes(tx.access_list)
}

impl TxEip2930 {
    /// The number of bytes that `encode_fields` writes.
    pub fn fields_len(&self) -> (n: usize)
        requires
            eip2930_fields_bytes(self@).len() <= usize::MAX,
        ensures
            n == eip2930_fields_bytes(self@).len(),
    {
        let mut n: usize = uint_length(self.chain_id as u128);
        n = n + uint_length(self.nonce as u128);
        n = n + uint_length(self.gas_price);
        n = n + uint_length(self.gas_limit as u128);
        n = n + self.to.length();
        n = n + uint_length(self.value);
        n = n + str_length(self.input.as_slice());
        n = n + self.access_list.length();
        n
    }

    /// Appends the encoded fields to `out`, in their fixed order and without
    /// a list header.
    pub fn encode_fields(&self, out: &mut Vec<u8>)
        requires
            eip2930_fields_bytes(self@).len() <= usize::MAX,
        ensures
            final(out)@ == old(out)@ + eip2930_fields_bytes(self@),
    {
        let ghost tx = self@;
        let ghost start = out@;
        let ghost mut done: Seq<u8> = Seq::empty();
        assert(out@ =~= start + done);
        proof {
            lemma_header_bytes_len(true, items_bytes(tx.access_list).len());
        }
        encode_u64(self.chain_id, out);
        proof {
            lemma_join_assoc(start, done, uint_bytes(tx.chain_id as nat));
            done = done + uint_bytes(tx.chain_id as nat);
        }
        assert(done =~= uint_bytes(tx.chain_id as nat));
        encode_u64(self.nonce, out);
        proof {
            lemma_join_assoc(start, done, uint_bytes(tx.nonce as nat));
            done = done + uint_bytes(tx.nonce as nat);
        }
        encode_uint(self.gas_price, out);
        proof {
            lemma_join_assoc(start, done, uint_bytes(tx.gas_price as nat));
            done = done + uint_bytes(tx.gas_price as nat);
        }
        encode_u64(self.gas_limit, out);
        proof {
            lemma_join_assoc(start, done, uint_bytes(tx.gas_limit as nat));
            done = done + uint_bytes(tx.gas_limit as nat);
        }
        self.to.encode(out);
        proof {
            lemma_join_assoc(start, done, kind_bytes(tx.to));
            done = done + kind_bytes(tx.to);
        }
        encode_uint(self.value, out);
        proof {
            lemma_join_assoc(start, done, uint_bytes(tx.value as nat));
            done = done + uint_bytes(tx.value as nat);
        }
        encode_str(self.input.as_slice(), out);
        proof {
            lemma_join_assoc(start, done, str_bytes(tx.input));
            done = done + str_bytes(tx.input);
        }
        self.access_list.encode(out);
        proof {
            lemma_join_assoc(start, done, access_list_bytes(tx.access_list));
            done = done + access_list_bytes(tx.access_list);
        }
        assert(done == eip2930_fields_bytes(tx));
    }
}

/// A fee-market transaction: a cap on the price of gas and a priority fee.
#[derive(Clone, Debug, PartialEq, Eq, Hash, Default)]
pub struct TxEip1559 {
    /// The chain that the transaction is meant for.
    pub chain_id: u64,
    /// The number of transactions that the sender has sent before.
    pub nonce: u64,
    /// The most gas that executing the transaction may use.
    pub gas_limit: u64,
    /// The most that the sender pays per unit of gas, base fee included.
    pub max_fee_per_gas: u128,
    /// The most that the sender pays per unit of gas on top of the base fee.
    pub max_priority_fee_per_gas: u128,
    /// The recipient, or none where a contract is created.
    pub to: TransactionKind,
    /// The amount transferred to the recipient.
    pub value: u128,
    /// The addresses and storage keys that the transaction will touch.
    pub access_list: AccessList,
    /// The call data, or the code that initialises a new contract.
    pub input: Vec<u8>,
}

/// What a `TxEip1559` holds.
pub struct TxEip1559View {
    pub chain_id: u64,
    pub nonce: u64,
    pub gas_limit: u64,
    pub max_fee_per_gas: u128,
    pub max_priority_fee_per_gas: u128,
    pub to: Option<Seq<u8>>,
    pub value: u128,
    pub access_list: Seq<AccessListItemView>,
    pub input: Seq<u8>,
}

impl View for TxEip1559 {
    type V = TxEip1559View;

    open spec fn view(&self) -> TxEip1559View {
        TxEip1559View {
            chain_id: self.chain_id,
            nonce: self.nonce,
            gas_limit: self.gas_limit,
            max_fee_per_gas: self.max_fee_per_gas,
            max_priority_fee_per_gas: self.max_priority_fee_per_gas,
            to: self.to@,
            value: self.value,
            access_list: self.access_list@,
            input: self.input@,
        }
    }
}

/// The encoded fields of a fee-market transaction, in their fixed order.
pub open spec fn eip1559_fields_bytes(tx: TxEip1559View) -> Seq<u8> {
    uint_bytes(tx.chain_id as nat)
        + uint_bytes(tx.nonce as nat)
        + uint_bytes(tx.max_priority_fee_per_gas as nat)
        + uint_bytes(tx.max_fee_per_gas as nat)
        + uint_bytes(tx.gas_limit as nat)
        + kind_bytes(tx.to)
        + uint_bytes(tx.value as nat)
        + str_bytes(tx.input)
        + access_list_bytes(tx.access_list)
}

impl TxEip1559 {
    /// The number of bytes that `encode_fields` writes.
    pub fn fields_len(&self) -> (n: usize)
        requires
            eip1559_fields_bytes(self@).len() <= usize::MAX,
        ensures
            n == eip1559_fields_bytes(self@).len(),
    {
        let mut n: usize = uint_length(self.chain_id as u128);
        n = n + uint_length(self.nonce as u128);
        n = n + uint_length(self.max_priority_fee_per_gas);
        n = n + uint_length(self.max_fee_per_gas);
        n = n + uint_length(self.gas_limit as u128);
        n = n + self.to.length();
        n = n + uint_length(self.value);
        n = n + str_length(self.input.as_slice());
        n = n + self.access_list.length();
        n
    }

    /// Appends the encoded fields to `out`, in their fixed order and without
    /// a list header.
    pub fn encode_fields(&self, out: &mut Vec<u8>)
        requires
            eip1559_fields_bytes(self@).len() <= usize::MAX,
        ensures
            final(out)@ == old(out)@ + eip1559_fields_bytes(self@),
    {
        let ghost tx = self@;
        let ghost start = out@;
        let ghost mut done: Seq<u8> = Seq::empty();
        assert(out@ =~= start + done);
        proof {
            lemma_header_bytes_len(true, items_bytes(tx.access_list).len());
        }
        encode_u64(self.chain_id, out);
        proof {
            lemma_join_assoc(start, done, uint_bytes(tx.chain_id as nat));
            done = done + uint_bytes(tx.chain_id as nat);
        }
        assert(done =~= uint_bytes(tx.chain_id as nat));
        encode_u64(self.nonce, out);
        proof {
            lemma_join_assoc(start, done, uint_bytes(tx.nonce as nat));
            done = done + uint_bytes(tx.nonce as nat);
        }
        encode_uint(self.max_priority_fee_per_gas, out);
        proof {
            lemma_join_assoc(start, done, uint_bytes(tx.max_priority_fee_per_gas as nat));
            done = done + uint_bytes(tx.max_priority_fee_per_gas as nat);
        }
        encode_uint(self.max_fee_per_gas, out);
        proof {
            lemma_join_assoc(start, done, uint_bytes(tx.max_fee_per_gas as nat));
            done = done + uint_bytes(tx.max_fee_per_gas as nat);
        }
        encode_u64(self.gas_limit, out);
        proof {
            lemma_join_assoc(start, done, uint_bytes(tx.gas_limit as nat));
            done = done + uint_bytes(tx.gas_limit as nat);
        }
        self.to.encode(out);
        proof {
            lemma_join_assoc(start, done, kind_bytes(tx.to));
            done = done + kind_bytes(tx.to);
        }
        encode_uint(self.value, out);
        proof {
            lemma_join_assoc(start, done, uint_bytes(tx.value as nat));
            done = done + uint_bytes(tx.value as nat);
        }
        encode_str(self.input.as_slice(), out);
        proof {
            lemma_join_assoc(start, done, str_bytes(tx.input));
            done = done + str_bytes(tx.input);
        }
        self.access_list.encode(out);
        proof {
            lemma_join_assoc(start, done, access_list_bytes(tx.access_list));
            done = done + access_list_bytes(tx.access_list);
        }
        assert(done == eip1559_fields_bytes(tx));
    }
}

/// A transaction of any kind.
#[derive(Clone, Debug, PartialEq, Eq, Hash)]
pub enum Transaction {
    /// A legacy transaction.
    Legacy(TxLegacy),
    /// An access-list transaction.
    Eip2930(TxEip2930),
    /// A fee-market transaction.
    Eip1559(TxEip1559),
    /// A blob transaction.
    Eip4844(TxEip4844),
}

/// What a transaction holds.
pub enum TransactionView {
    Legacy(TxLegacyView),
    Eip2930(TxEip2930View),
    Eip1559(TxEip1559View),
    Eip4844(TxEip4844View),
}

impl View for Transaction {
    type V = TransactionView;

    open spec fn view(&self) -> TransactionView {
        match self {
            Transaction::Legacy(tx) => TransactionView::Legacy(tx@),
            Transaction::Eip2930(tx) => TransactionView::Eip2930(tx@),
            Transaction::Eip1559(tx) => TransactionView::Eip1559(tx@),
            Transaction::Eip4844(tx) => TransactionView::Eip4844(tx@),
        }
    }
}

impl TransactionView {
    /// The kind of the transaction.
    pub open spec fn tx_type(self) -> TxType {
        match self {
            TransactionView::Legacy(_) => TxType::Legacy,
            TransactionView::Eip2930(_) => TxType::EIP2930,
            TransactionView::Eip1559(_) => TxType::EIP1559,
            TransactionView::Eip4844(_) => TxType::EIP4844,
        }
    }

    /// The encoded fields of the transaction, without a list header and
    /// without a signature.
    pub open spec fn fields_bytes(self) -> Seq<u8> {
        match self {
            TransactionView::Legacy(tx) => legacy_fields_bytes(tx),
            TransactionView::Eip2930(tx) => eip2930_fields_bytes(tx),
            TransactionView::Eip1559(tx) => eip1559_fields_bytes(tx),
            TransactionView::Eip4844(tx) => fields_bytes(tx),
        }
    }
}

impl Default for Transaction {
    /// A legacy transaction with every field zero or empty.
    fn default() -> (tx: Transaction)
        ensures
            tx@ == TransactionView::Legacy(
                TxLegacyView {
                    chain_id: None,
                    nonce: 0,
                    gas_price: 0,
                    gas_limit: 0,
                    to: None,
                    value: 0,
                    input: Seq::empty(),
                },
            ),
    {
        Transaction::Legacy(
            TxLegacy {
                chain_id: None,
                nonce: 0,
                gas_price: 0,
                gas_limit: 0,
                to: TransactionKind::Create,
                value: 0,
                input: Vec::new(),
            },
        )
    }
}

impl Transaction {
    /// The kind of the transaction.
    pub fn tx_type(&self) -> (kind: TxType)
        ensures
            kind == self@.tx_type(),
    {
        match self {
            Transaction::Legacy(_) => TxType::Legacy,
            Transaction::Eip2930(_) => TxType::EIP2930,
            Transaction::Eip1559(_) => TxType::EIP1559,
            Transaction::Eip4844(_) => TxType::EIP4844,
        }
    }

    /// The number of bytes that `encode_fields` writes.
    pub fn fields_len(&self) -> (n: usize)
        requires
            self@.fields_bytes().len() <= usize::MAX,
        ensures
            n == self@.fields_bytes().len(),
    {
        match self {
            Transaction::Legacy(tx) => tx.fields_len(),
            Transaction::Eip2930(tx) => tx.fields_len(),
            Transaction::Eip1559(tx) => tx.fields_len(),
            Transaction::Eip4844(tx) => tx.fields_len(),
        }
    }

    /// Appends the encoded fields to `out`, without a list header and without
    /// a signature.
    pub fn encode_fields(&self, out: &mut Vec<u8>)
        requires
            self@.fields_bytes().len() <= usize::MAX,
        ensures
            final(out)@ == old(out)@ + self@.fields_bytes(),
    {
        match self {
            Transaction::Legacy(tx) => tx.encode_fields(out),
            Transaction::Eip2930(tx) => tx.encode_fields(out),
            Transaction::Eip1559(tx) => tx.encode_fields(out),
            Transaction::Eip4844(tx) => tx.encode_fields(out),
        }
    }
}

/// A bound on the length of the encoded fields of a transaction with
/// `numbers` numbers of at most 128 bits, a recipient, `input` bytes of input
/// and lists whose encodings are bounded by `lists`.
pub open spec fn fields_len_bound(numbers: nat, input: nat, lists: nat) -> nat {
    numbers * 17 + 21 + MAX_HEADER_LENGTH as nat + input + lists
}

impl TransactionView {
    /// A bound on the length of the encoded fields of the transaction.
    pub open spec fn fields_len_bound(self) -> nat {
        match self {
            TransactionView::Legacy(tx) => fields_len_bound(4, tx.input.len(), 0),
            TransactionView::Eip2930(tx) => fields_len_bound(
                5,
                tx.input.len(),
                access_list_len_bound(tx.access_list),
            ),
            TransactionView::Eip1559(tx) => fields_len_bound(
                6,
                tx.input.len(),
                access_list_len_bound(tx.access_list),
            ),
            TransactionView::Eip4844(tx) => fields_len_bound(
                7,
                tx.input.len(),
                access_list_len_bound(tx.access_list) + fixed_list_len_bound(
                    tx.blob_versioned_hashes.len(),
                    32,
                ),
            ),
        }
    }
}

/// A number of at most 128 bits is written in at most 17 bytes, a recipient
/// in at most 21, and a byte string in at most nine bytes more than it has.
pub proof fn lemma_field_len_bounds(number: u128, to: TransactionKind, input: Seq<u8>)
    requires
        input.len() <= usize::MAX,
    ensures
        uint_bytes(number as nat).len() <= 17,
        kind_bytes(to@).len() <= 21,
        str_bytes(input).len() <= input.len() + MAX_HEADER_LENGTH,
{
    lemma_pow256_values();
    lemma_uint_bytes_len(number as nat, 16);
    lemma_parse_kind_bytes(to@, Seq::empty());
    lemma_str_bytes_len(input);
}

impl TxEip4844 {
    /// A bound on the length of the encoded fields of the body, or nothing
    /// where the bound is larger than any machine word. Where there is a
    /// bound, the fields can be encoded.
    pub fn fields_length_bound(&self) -> (bound: Option<usize>)
        ensures
            bound == fitting(TransactionView::Eip4844(self@).fields_len_bound()),
            bound is Some ==> fields_bytes(self@).len() <= bound->Some_0,
    {
        let input_len: usize = self.input.len();
        proof {
            lemma_field_len_bounds(self.chain_id as u128, self.to, self.input@);
            lemma_field_len_bounds(self.nonce as u128, self.to, self.input@);
            lemma_field_len_bounds(self.max_priority_fee_per_gas, self.to, self.input@);
            lemma_field_len_bounds(self.max_fee_per_gas, self.to, self.input@);
            lemma_field_len_bounds(self.gas_limit as u128, self.to, self.input@);
            lemma_field_len_bounds(self.value, self.to, self.input@);
            lemma_field_len_bounds(self.max_fee_per_blob_gas, self.to, self.input@);
        }
        fitting_sum(
            fitting_sum(Some(7 * 17 + 21 + MAX_HEADER_LENGTH), Some(input_len)),
            fitting_sum(
                self.access_list.length_bound(),
                fixed_list_length_bound(&self.blob_versioned_hashes),
            ),
        )
    }
}

impl Transaction {
    /// A bound on the length of the encoded fields of the transaction, or
    /// nothing where the bound is larger than any machine word. Where there
    /// is a bound, the fields can be encoded.
    pub fn fields_length_bound(&self) -> (bound: Option<usize>)
        ensures
            bound == fitting(self@.fields_len_bound()),
            bound is Some ==> self@.fields_bytes().len() <= bound->Some_0,
    {
        let fixed: usize = 21 + MAX_HEADER_LENGTH;
        match self {
            Transaction::Legacy(tx) => {
                let input_len: usize = tx.input.len();
                proof {
                    lemma_field_len_bounds(tx.nonce as u128, tx.to, tx.input@);
                    lemma_field_len_bounds(tx.gas_price, tx.to, tx.input@);
                    lemma_field_len_bounds(tx.gas_limit as u128, tx.to, tx.input@);
                    lemma_field_len_bounds(tx.value, tx.to, tx.input@);
                }
                fitting_sum(Some(4 * 17 + fixed), Some(input_len))
            },
            Transaction::Eip2930(tx) => {
                let input_len: usize = tx.input.len();
                proof {
                    lemma_field_len_bounds(tx.chain_id as u128, tx.to, tx.input@);
                    lemma_field_len_bounds(tx.nonce as u128, tx.to, tx.input@);
                    lemma_field_len_bounds(tx.gas_price, tx.to, tx.input@);
                    lemma_field_len_bounds(tx.gas_limit as u128, tx.to, tx.input@);
                    lemma_field_len_bounds(tx.value, tx.to, tx.input@);
                }
                fitting_sum(
                    fitting_sum(Some(5 * 17 + fixed), Some(input_len)),
                    tx.access_list.length_bound(),
                )
            },
            Transaction::Eip1559(tx) => {
                let input_len: usize = tx.input.len();
                proof {
                    lemma_field_len_bounds(tx.chain_id as u128, tx.to, tx.input@);
                    lemma_field_len_bounds(tx.nonce as u128, tx.to, tx.input@);
                    lemma_field_len_bounds(tx.max_priority_fee_per_gas, tx.to, tx.input@);
                    lemma_field_len_bounds(tx.max_fee_per_gas, tx.to, tx.input@);
                    lemma_field_len_bounds(tx.gas_limit as u128, tx.to, tx.input@);
                    lemma_field_len_bounds(tx.value, tx.to, tx.input@);
                }
                fitting_sum(
                    fitting_sum(Some(6 * 17 + fixed), Some(input_len)),
                    tx.access_list.length_bound(),
                )
            },
            Transaction::Eip4844(tx) => tx.fields_length_bound(),
        }
    }
}

} // verus!
