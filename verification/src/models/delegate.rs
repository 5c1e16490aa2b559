use crate::types::Balance;
use vstd::prelude::*;

verus! {

/// What one delegator has committed to one candidate.
#[derive(Clone, Copy, Debug, PartialEq, Eq)]
pub struct Delegation {
    /// The committed amount.
    pub amount: Balance,
}

impl Delegation {
    /// A delegation of `amount`.
    pub fn new(amount: Balance) -> (d: Self)
        ensures
            d == (Delegation { amount }),
    {
        Delegation { amount }
    }

    /// Replaces the committed amount.
    pub fn set_amount(&mut self, amount: Balance)
        ensures
            *final(self) == (Delegation { amount }),
    {
        self.amount = amount;
    }
}

} // verus!
