//! Slot counter within an epoch.
//!
//! The epoch counter drives end-of-epoch rollover: when the counter reaches
//! `EPOCH_DURATION` the staking buffer is applied and a fresh hash chain is
//! committed.

use vstd::prelude::*;

use crate::config::EPOCH_DURATION;

verus! {

/// Slot counter within the current epoch, starting at 0.
pub struct Epoch {
    /// Slots elapsed since the epoch started.
    pub timestamp: u64,
}

impl Epoch {
    /// A fresh epoch, positioned at slot 0.
    pub fn new() -> (e: Epoch)
        ensures
            e.timestamp == 0,
    {
        Epoch { timestamp: 0 }
    }

    /// Advance the counter by one slot.
    pub fn progress(&mut self)
        requires
            old(self).timestamp < u64::MAX,
        ensures
            final(self).timestamp == old(self).timestamp + 1,
    {
        self.timestamp = self.timestamp + 1;
    }

    /// Return to slot 0 for the next epoch.
    pub fn reset(&mut self)
        ensures
            final(self).timestamp == 0,
    {
        self.timestamp = 0;
    }

    /// The epoch is over once `EPOCH_DURATION` slots have elapsed.
    pub fn is_end_of_epoch(&self) -> (r: bool)
        ensures
            r == (self.timestamp >= EPOCH_DURATION),
    {
        self.timestamp >= EPOCH_DURATION
    }
}

} // verus!
