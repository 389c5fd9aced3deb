//! The fixed-width values that transactions are made of.

use vstd::prelude::*;

verus! {

/// A 20-byte account address.
pub type Address = [u8; 20];

/// A 32-byte hash.
pub type H256 = [u8; 32];

/// A 48-byte commitment or proof.
pub type Bytes48 = [u8; 48];

/// The number of bytes of a blob.
pub const BYTES_PER_BLOB: usize = 131072;

/// The number of bytes of a commitment.
pub const BYTES_PER_COMMITMENT: usize = 48;

/// The number of bytes of a proof.
pub const BYTES_PER_PROOF: usize = 48;

/// A blob: a fixed-width buffer of opaque data.
pub type Blob = [u8; 131072];

/// The data gas that each blob of a transaction is charged.
pub const DATA_GAS_PER_BLOB: u64 = 131072;

/// The type byte of a blob transaction.
pub const EIP4844_TX_TYPE_ID: u8 = 3;

/// The version marker that a versioned hash starts with.
pub const VERSIONED_HASH_VERSION_KZG: u8 = 1;

/// `n`, or the largest machine word where `n` is larger.
pub open spec fn saturated(n: nat) -> usize {
    if n > usize::MAX {
        usize::MAX
    } else {
        n as usize
    }
}

/// The product of `a` and `b`, or the largest machine word where the product
/// is larger.
pub fn saturating_product(a: usize, b: usize) -> (p: usize)
    ensures
        p == saturated((a * b) as nat),
{
    match a.checked_mul(b) {
        Some(p) => p,
        None => usize::MAX,
    }
}

/// `n` as a machine word, or nothing where `n` is larger than any.
pub open spec fn fitting(n: nat) -> Option<usize> {
    if n <= usize::MAX {
        Some(n as usize)
    } else {
        None
    }
}

/// The sum of two lengths, where both are machine words and the sum is one.
pub fn fitting_sum(a: Option<usize>, b: Option<usize>) -> (sum: Option<usize>)
    ensures
        sum == match (a, b) {
            (Some(x), Some(y)) => fitting((x + y) as nat),
            _ => None,
        },
{
    match (a, b) {
        (Some(x), Some(y)) => x.checked_add(y),
        _ => None,
    }
}

/// The product of two counts, where it is a machine word.
pub fn fitting_product(a: usize, b: usize) -> (product: Option<usize>)
    ensures
        product == fitting((a * b) as nat),
{
    a.checked_mul(b)
}

} // verus!
