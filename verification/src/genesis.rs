//! The genesis announcement: a validator's initial self-stake.

use vstd::prelude::*;

use crate::transaction::Transaction;

verus! {

/// The one-shot genesis message carrying the initial stake transaction.
pub struct Genesis {
    pub stake_txn: Transaction,
}

impl Genesis {
    pub fn new(stake_txn: Transaction) -> (g: Genesis)
        ensures
            g.stake_txn == stake_txn,
    {
        Genesis { stake_txn }
    }
}

} // verus!
