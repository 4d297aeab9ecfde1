//! Protocol constants shared by every component.

use vstd::prelude::*;

verus! {

/// Number of slots in one epoch; each validator's hash chain serves one epoch.
pub const EPOCH_DURATION: u64 = 10;

/// Seconds between two block-production ticks.
pub const BLOCK_INTERVAL: u64 = 6;

/// Minimum stake a validator must bind with its stake transaction.
pub const STAKING_AMOUNT: u64 = 100;

/// Maximum number of transactions drained from the mempool into one block.
pub const MAX_TXNS_PER_BLOCK: usize = 100;

} // verus!
