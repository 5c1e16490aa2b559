use crate::types::{AccountId, Balance};
use std::collections::BTreeMap;
use vstd::prelude::*;

verus! {

/// The stakes that count for the rewards of one epoch.
#[derive(Clone, Debug, PartialEq, Eq)]
pub struct Epoch {
    /// Each validator with its stake.
    pub validators: BTreeMap<AccountId, Balance>,
    /// Each `(delegator, validator)` pair with the delegated amount.
    pub delegations: BTreeMap<(AccountId, AccountId), Balance>,
}

/// An epoch as two maps.
#[verifier::ext_equal]
pub struct EpochView {
    pub validators: Map<AccountId, Balance>,
    pub delegations: Map<(AccountId, AccountId), Balance>,
}

impl View for Epoch {
    type V = EpochView;

    open spec fn view(&self) -> EpochView {
        EpochView { validators: self.validators@, delegations: self.delegations@ }
    }
}

impl EpochView {
    /// The epoch without validators and delegations.
    pub open spec fn empty() -> EpochView {
        EpochView { validators: Map::empty(), delegations: Map::empty() }
    }
}

impl Epoch {
    /// An epoch without validators and delegations.
    pub fn default() -> (e: Self)
        ensures
            e@ == EpochView::empty(),
    {
        Epoch { validators: BTreeMap::new(), delegations: BTreeMap::new() }
    }

    /// Records that `delegator` has `amount` behind `candidate`, replacing an earlier record
    /// of the pair.
    pub fn add_delegator(&mut self, delegator: AccountId, candidate: AccountId, amount: Balance)
        ensures
            final(self)@ == (EpochView {
                validators: old(self)@.validators,
                delegations: old(self)@.delegations.insert((delegator, candidate), amount),
            }),
    {
        self.delegations.insert((delegator, candidate), amount);
    }

    /// Records the stake of the validator `candidate`, replacing an earlier record of it.
    pub fn add_validator(&mut self, candidate: AccountId, amount: Balance)
        ensures
            final(self)@ == (EpochView {
                validators: old(self)@.validators.insert(candidate, amount),
                delegations: old(self)@.delegations,
            }),
    {
        self.validators.insert(candidate, amount);
    }
}

} // verus!
