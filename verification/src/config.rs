use crate::types::{Balance, BlockNumber};
use vstd::prelude::*;

verus! {

/// The limits of a deployment. They are fixed when the ledger is created.
#[derive(Clone, Copy, Debug, PartialEq, Eq)]
pub struct Config {
    /// Largest size of the active validator set.
    pub max_validators: u32,
    /// Fewest candidates with which a validator set is selected at all.
    pub min_validators: u32,
    /// Largest size of the candidate pool.
    pub max_candidates: u32,
    /// Largest number of delegators of one candidate.
    pub max_candidate_delegators: u32,
    /// Smallest amount that one delegator may have delegated to one candidate.
    pub min_delegate_amount: Balance,
    /// Smallest bond of a candidate.
    pub min_candidate_bond: Balance,
    /// Length of an epoch in blocks.
    pub epoch_duration: BlockNumber,
    /// Largest number of candidates that one delegator may back.
    pub max_delegate_count: u32,
}

impl Config {
    /// A configuration is usable when it allows a validator and its epochs have a length.
    pub open spec fn valid(self) -> bool {
        &&& self.max_validators >= 1
        &&& self.epoch_duration > 0
    }

    /// Tells whether the configuration is usable.
    pub fn is_valid(&self) -> (ok: bool)
        ensures
            ok == self.valid(),
    {
        self.max_validators >= 1 && self.epoch_duration > 0
    }
}

} // verus!
