use crate::models::DispatchResultWithValue;
use crate::types::{AccountId, Balance, Error};
use vstd::prelude::*;

verus! {

/// A registered account that seeks a validator seat.
#[derive(Clone, Copy, Debug, PartialEq, Eq)]
pub struct Candidate {
    /// What the candidate staked itself.
    pub bond: Balance,
    /// What all its delegators have staked behind it.
    pub sum_delegation: Balance,
}

/// Candidates with their bonds.
pub type CandidateSet = Vec<(AccountId, Balance)>;

impl Candidate {
    /// Bond plus delegations, capped at the largest balance.
    pub open spec fn spec_total(self) -> Balance {
        if self.bond + self.sum_delegation > Balance::MAX {
            Balance::MAX
        } else {
            (self.bond + self.sum_delegation) as Balance
        }
    }

    /// A candidate with the given bond and no delegations.
    pub fn new(bond: Balance) -> (c: Self)
        ensures
            c == (Candidate { bond, sum_delegation: 0 }),
    {
        Candidate { bond, sum_delegation: 0 }
    }

    /// Adds `amount` to the delegated sum and returns the new sum. Fails with `Overflow`,
    /// changing nothing, when the sum would not fit the balance type.
    pub fn add_delegated_amount(&mut self, amount: Balance) -> (r: DispatchResultWithValue<
        Balance,
    >)
        ensures
            old(self).sum_delegation + amount <= Balance::MAX ==> r == Ok::<Balance, Error>(
                (old(self).sum_delegation + amount) as Balance,
            ) && *final(self) == (Candidate {
                bond: old(self).bond,
                sum_delegation: (old(self).sum_delegation + amount) as Balance,
            }),
            old(self).sum_delegation + amount > Balance::MAX ==> r == Err::<Balance, Error>(
                Error::Overflow,
            ) && *final(self) == *old(self),
    {
        match self.sum_delegation.checked_add(amount) {
            Some(sum) => {
                self.sum_delegation = sum;
                Ok(sum)
            },
            None => Err(Error::Overflow),
        }
    }

    /// Takes `amount` from the delegated sum and returns the new sum. Fails with `Overflow`,
    /// changing nothing, when the sum is smaller than `amount`.
    pub fn sub_delegated_amount(&mut self, amount: Balance) -> (r: DispatchResultWithValue<
        Balance,
    >)
        ensures
            old(self).sum_delegation >= amount ==> r == Ok::<Balance, Error>(
                (old(self).sum_delegation - amount) as Balance,
            ) && *final(self) == (Candidate {
                bond: old(self).bond,
                sum_delegation: (old(self).sum_delegation - amount) as Balance,
            }),
            old(self).sum_delegation < amount ==> r == Err::<Balance, Error>(Error::Overflow)
                && *final(self) == *old(self),
    {
        match self.sum_delegation.checked_sub(amount) {
            Some(sum) => {
                self.sum_delegation = sum;
                Ok(sum)
            },
            None => Err(Error::Overflow),
        }
    }

    /// Replaces the bond.
    pub fn update_bond(&mut self, bond: Balance)
        ensures
            *final(self) == (Candidate { bond, sum_delegation: old(self).sum_delegation }),
    {
        self.bond = bond;
    }

    /// The stake by which candidates are ranked: bond plus delegations, capped at the
    /// largest balance.
    pub fn total(&self) -> (t: Balance)
        ensures
            t == self.spec_total(),
    {
        self.sum_delegation.saturating_add(self.bond)
    }
}

} // verus!
