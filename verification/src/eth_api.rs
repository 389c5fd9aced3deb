//! What the `eth` interface decides from the state of the node: the sync
//! status it reports, and whether a pending block can be handed out, must be
//! built, or cannot be had.

use crate::gas_cap::GasCap;
use crate::primitives::H256;
use crate::rlp::fixed::bytes_eq;
use vstd::prelude::*;

verus! {

/// The seconds between two blocks.
pub const SLOT_SECONDS: u64 = 12;

/// The seconds for which a pending block that was built here stays good.
pub const PENDING_BLOCK_LIFETIME_SECONDS: u64 = 3;

/// How far a sync has come.
#[derive(Clone, Copy, Debug, PartialEq, Eq, Structural)]
pub struct SyncInfo {
    /// The block at which the node started.
    pub starting_block: u64,
    /// The best block that the node has.
    pub current_block: u64,
    /// The highest block that the node knows of.
    pub highest_block: u64,
}

/// Whether the node is syncing, and how far it has come if it is.
#[derive(Clone, Copy, Debug, PartialEq, Eq, Structural)]
pub enum SyncStatus {
    /// The node is syncing.
    Info(SyncInfo),
    /// The node is not syncing.
    NotSyncing,
}

/// The plain values that the `eth` interface keeps: the cap on the gas of
/// simulated calls, and the block at which the node started.
#[derive(Clone, Copy, Debug, PartialEq, Eq, Structural)]
pub struct EthApiCore {
    pub gas_cap: u64,
    pub starting_block: u64,
}

impl EthApiCore {
    /// The values to start with: the cap as given, and as starting block the
    /// number of the latest block, or zero where none could be found.
    pub fn new(gas_cap: GasCap, latest_block_number: Option<u64>) -> (core: EthApiCore)
        ensures
            core.gas_cap == gas_cap.value(),
            core.starting_block == match latest_block_number {
                Some(number) => number,
                None => 0,
            },
    {
        let starting_block: u64 = match latest_block_number {
            Some(number) => number,
            None => 0,
        };
        EthApiCore { gas_cap: gas_cap.get(), starting_block }
    }

    /// The cap on the gas of simulated calls.
    pub fn gas_cap(&self) -> (cap: u64)
        ensures
            cap == self.gas_cap,
    {
        self.gas_cap
    }

    /// The sync status to report. A node that is syncing reports where it
    /// started and its best block, which is also the highest it vouches for;
    /// without a best block it reports block zero.
    pub fn sync_status(&self, is_syncing: bool, best_number: Option<u64>) -> (status: SyncStatus)
        ensures
            !is_syncing ==> status == SyncStatus::NotSyncing,
            is_syncing ==> status == SyncStatus::Info(
                SyncInfo {
                    starting_block: self.starting_block,
                    current_block: best_number.unwrap_or(0),
                    highest_block: best_number.unwrap_or(0),
                },
            ),
    {
        if is_syncing {
            let current_block: u64 = match best_number {
                Some(number) => number,
                None => 0,
            };
            SyncStatus::Info(
                SyncInfo {
                    starting_block: self.starting_block,
                    current_block,
                    highest_block: current_block,
                },
            )
        } else {
            SyncStatus::NotSyncing
        }
    }
}

/// What of a block header decides on pending blocks.
#[derive(Clone, Copy, Debug, PartialEq, Eq)]
pub struct HeaderSummary {
    /// The number of the block.
    pub number: u64,
    /// The time of the block, in seconds.
    pub timestamp: u64,
    /// The base fee of the block, where it has one.
    pub base_fee_per_gas: Option<u64>,
}

/// The header of the block that would follow `latest` in the next slot, with
/// the base fee that the caller computed for it.
pub fn derive_pending_header(latest: HeaderSummary, next_base_fee: Option<u64>) -> (pending:
    HeaderSummary)
    requires
        latest.number < u64::MAX,
        latest.timestamp + SLOT_SECONDS <= u64::MAX,
    ensures
        pending.number == latest.number + 1,
        pending.timestamp == latest.timestamp + SLOT_SECONDS,
        pending.base_fee_per_gas == next_base_fee,
{
    HeaderSummary {
        number: latest.number + 1,
        timestamp: latest.timestamp + SLOT_SECONDS,
        base_fee_per_gas: next_base_fee,
    }
}

/// What is kept of a pending block that was built here.
#[derive(Clone, Copy, Debug, PartialEq, Eq)]
pub struct CachedPendingBlock {
    /// The number of the block.
    pub number: u64,
    /// The hash of the block it builds on.
    pub parent_hash: H256,
    /// The time from which the block is no longer good, in seconds.
    pub expires_at: u64,
}

/// What to do about a request for the pending block.
#[derive(Clone, Copy, Debug, PartialEq, Eq, Structural)]
pub enum PendingBlockAction {
    /// Hand out the pending block that the consensus layer sent.
    UseActual,
    /// Hand out the block that was built here before.
    UseCached,
    /// There is none to hand out: the node is syncing.
    Unavailable,
    /// Build a block from the pool.
    Build,
}

/// Whether the block kept in `cached` is still good for a pending block of
/// number `number` that builds on the block of hash `parent_hash`, at time
/// `now`.
pub open spec fn cache_is_good(
    cached: Option<CachedPendingBlock>,
    number: u64,
    parent_hash: H256,
    now: u64,
) -> bool {
    match cached {
        Some(block) => block.number == number && block.parent_hash@ == parent_hash@ && now
            <= block.expires_at,
        None => false,
    }
}

/// Decides what to do about a request for the pending block: an actual
/// pending block goes first, then a block that was built here and is still
/// good; a syncing node has none; else one is built.
pub fn pending_block_action(
    is_actual_pending: bool,
    cached: Option<CachedPendingBlock>,
    number: u64,
    parent_hash: &H256,
    now: u64,
    is_syncing: bool,
) -> (action: PendingBlockAction)
    ensures
        action == if is_actual_pending {
            PendingBlockAction::UseActual
        } else if cache_is_good(cached, number, *parent_hash, now) {
            PendingBlockAction::UseCached
        } else if is_syncing {
            PendingBlockAction::Unavailable
        } else {
            PendingBlockAction::Build
        },
{
    if is_actual_pending {
        return PendingBlockAction::UseActual;
    }
    if let Some(block) = cached {
        if block.number == number && bytes_eq(block.parent_hash.as_slice(), parent_hash.as_slice())
            && now <= block.expires_at {
            return PendingBlockAction::UseCached;
        }
    }
    if is_syncing {
        PendingBlockAction::Unavailable
    } else {
        PendingBlockAction::Build
    }
}

/// What to keep of a block of number `number` on parent `parent_hash` that
/// was built at time `now`: it stays good for three seconds.
pub fn cache_built_block(number: u64, parent_hash: H256, now: u64) -> (cached:
    CachedPendingBlock)
    requires
        now + PENDING_BLOCK_LIFETIME_SECONDS <= u64::MAX,
    ensures
        cached.number == number,
        cached.parent_hash == parent_hash,
        cached.expires_at == now + PENDING_BLOCK_LIFETIME_SECONDS,
{
    CachedPendingBlock { number, parent_hash, expires_at: now + PENDING_BLOCK_LIFETIME_SECONDS }
}

} // verus!
