//! Blob-carrying transactions: their length-prefixed binary encoding, the
//! pooled and canonical formats of the signed envelope, and the validation of
//! a blob sidecar against the hashes that the transaction declares.

pub mod access_list;
pub mod blob_transaction;
pub mod body;
pub mod eth_api;
pub mod gas_cap;
pub mod hashing;
pub mod kzg;
pub mod laws;
pub mod network;
pub mod primitives;
pub mod rlp;
pub mod sidecar;
pub mod signature;
pub mod signed;
pub mod transaction;
pub mod transaction_kind;
