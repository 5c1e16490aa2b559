//! Stake accounting: candidates register and leave, delegators commit and withdraw funds,
//! and accrued rewards are claimed.
//!
//! For each operation three functions of the ledger before the call say what it does: which
//! error refuses it (`*_error`), what it returns (`*_outcome`) and what the ledger is
//! afterwards (`*_state`). A refused operation leaves the ledger as it was.
use crate::delegators::{
    insert, lemma_take_next, lemma_with_delegator, remove, with_delegator, without_delegator,
};
use crate::models::{Candidate, Delegation, DispatchResultWithValue};
use crate::pallet::Pallet;
use crate::preservation::{
    lemma_claim_wf, lemma_delegate_wf, lemma_register_wf, lemma_undelegate_wf,
    lemma_unregister_wf,
};
use crate::state::{lemma_stakes_untouched, State};
use crate::types::{
    AccountId, Balance, BalanceCommand, Error, Event, HoldReason, Receipt, ReceiptView,
};
use vstd::prelude::*;

verus! {

/// What an operation returns, with the receipt as sequences.
pub type Outcome = Result<ReceiptView, Error>;

/// The outcome that a returned value stands for.
pub open spec fn outcome_of(r: Result<Receipt, Error>) -> Outcome {
    match r {
        Ok(receipt) => Ok(receipt@),
        Err(e) => Err(e),
    }
}

/// `count` less one, and zero for zero.
pub open spec fn decremented(count: u32) -> u32 {
    if count == 0 {
        0
    } else {
        (count - 1) as u32
    }
}

impl State {
    /// Why `who` cannot register with `bond`, if it cannot.
    pub open spec fn register_error(self, who: AccountId, bond: Balance) -> Option<Error> {
        if bond == 0 {
            Some(Error::InvalidZeroAmount)
        } else if bond < self.config.min_candidate_bond {
            Some(Error::BelowMinimumCandidateBond)
        } else if self.candidates.contains_key(who) {
            Some(Error::CandidateAlreadyExist)
        } else if self.candidates.len() >= self.config.max_candidates {
            Some(Error::TooManyValidators)
        } else {
            None
        }
    }

    /// What registering returns: the hold of the bond and the record of the registration.
    pub open spec fn register_outcome(self, who: AccountId, bond: Balance) -> Outcome {
        match self.register_error(who, bond) {
            Some(e) => Err(e),
            None => Ok(
                ReceiptView {
                    commands: seq![
                        BalanceCommand::Hold {
                            reason: HoldReason::CandidateBondReserved,
                            who,
                            amount: bond,
                        },
                    ],
                    events: seq![
                        Event::CandidateRegistered { candidate_id: who, initial_bond: bond },
                    ],
                    reported: None,
                },
            ),
        }
    }

    /// The ledger after registering: `who` is in the pool with its bond and no delegations.
    pub open spec fn register_state(self, who: AccountId, bond: Balance) -> State {
        if self.register_error(who, bond) is Some {
            self
        } else {
            State {
                candidates: self.candidates.insert(who, Candidate { bond, sum_delegation: 0 }),
                ..self
            }
        }
    }

    /// Why the stake of `candidate` cannot grow by `amount`, if it cannot.
    pub open spec fn stake_increase_error(self, candidate: AccountId, amount: Balance) -> Option<
        Error,
    > {
        if !self.candidates.contains_key(candidate) {
            Some(Error::CandidateDoesNotExist)
        } else if self.candidates[candidate].sum_delegation + amount > Balance::MAX {
            Some(Error::Overflow)
        } else {
            None
        }
    }

    /// Why the stake of `candidate` cannot shrink by `amount`, if it cannot.
    pub open spec fn stake_decrease_error(self, candidate: AccountId, amount: Balance) -> Option<
        Error,
    > {
        if !self.candidates.contains_key(candidate) {
            Some(Error::CandidateDoesNotExist)
        } else if self.candidates[candidate].sum_delegation < amount {
            Some(Error::Overflow)
        } else {
            None
        }
    }

    /// Why `delegator` cannot put `amount` behind `candidate`, if it cannot.
    pub open spec fn delegate_error(
        self,
        delegator: AccountId,
        candidate: AccountId,
        amount: Balance,
    ) -> Option<Error> {
        if amount == 0 {
            Some(Error::InvalidZeroAmount)
        } else if self.delegations.contains_key((delegator, candidate)) {
            let current = self.delegations[(delegator, candidate)].amount;
            if current + amount > Balance::MAX {
                Some(Error::Overflow)
            } else if current + amount < self.config.min_delegate_amount {
                Some(Error::BelowMinimumDelegateAmount)
            } else {
                self.stake_increase_error(candidate, amount)
            }
        } else {
            if amount < self.config.min_delegate_amount {
                Some(Error::BelowMinimumDelegateAmount)
            } else if self.delegate_count(delegator) >= self.config.max_delegate_count {
                Some(Error::TooManyCandidateDelegations)
            } else if self.delegators_of(candidate).len()
                >= self.config.max_candidate_delegators {
                Some(Error::TooManyDelegatorsInPool)
            } else {
                self.stake_increase_error(candidate, amount)
            }
        }
    }

    /// What `delegator` has behind `candidate` once `amount` is added.
    pub open spec fn delegated_after(
        self,
        delegator: AccountId,
        candidate: AccountId,
        amount: Balance,
    ) -> Balance {
        if self.delegations.contains_key((delegator, candidate)) {
            (self.delegations[(delegator, candidate)].amount + amount) as Balance
        } else {
            amount
        }
    }

    /// What delegating returns: the hold of the amount, and the record of the delegation with
    /// what all delegators together then have behind the candidate.
    pub open spec fn delegate_outcome(
        self,
        delegator: AccountId,
        candidate: AccountId,
        amount: Balance,
    ) -> Outcome {
        match self.delegate_error(delegator, candidate, amount) {
            Some(e) => Err(e),
            None => Ok(
                ReceiptView {
                    commands: seq![
                        BalanceCommand::Hold {
                            reason: HoldReason::DelegateAmountReserved,
                            who: delegator,
                            amount,
                        },
                    ],
                    events: seq![
                        Event::CandidateDelegated {
                            candidate_id: candidate,
                            delegated_by: delegator,
                            amount,
                            total_delegated_amount: (self.candidates[candidate].sum_delegation
                                + amount) as Balance,
                        },
                    ],
                    reported: None,
                },
            ),
        }
    }

    /// The ledger after delegating. The delegation of the pair grows by `amount`, and so does
    /// the delegated sum of the candidate. A first delegation of the pair also counts one
    /// more candidate for the delegator and lists the delegator with the candidate.
    pub open spec fn delegate_state(
        self,
        delegator: AccountId,
        candidate: AccountId,
        amount: Balance,
    ) -> State {
        if self.delegate_error(delegator, candidate, amount) is Some {
            self
        } else {
            let first = !self.delegations.contains_key((delegator, candidate));
            State {
                candidates: self.candidates.insert(
                    candidate,
                    Candidate {
                        bond: self.candidates[candidate].bond,
                        sum_delegation: (self.candidates[candidate].sum_delegation
                            + amount) as Balance,
                    },
                ),
                delegations: self.delegations.insert(
                    (delegator, candidate),
                    Delegation { amount: self.delegated_after(delegator, candidate, amount) },
                ),
                delegate_counts: if first {
                    self.delegate_counts.insert(
                        delegator,
                        (self.delegate_count(delegator) + 1) as u32,
                    )
                } else {
                    self.delegate_counts
                },
                delegators: if first {
                    self.delegators.insert(
                        candidate,
                        with_delegator(self.delegators_of(candidate), delegator),
                    )
                } else {
                    self.delegators
                },
                ..self
            }
        }
    }

    /// Why `delegator` cannot take `amount` back from `candidate`, if it cannot.
    pub open spec fn undelegate_error(
        self,
        delegator: AccountId,
        candidate: AccountId,
        amount: Balance,
    ) -> Option<Error> {
        if !self.candidates.contains_key(candidate) {
            Some(Error::CandidateDoesNotExist)
        } else if amount == 0 {
            Some(Error::InvalidZeroAmount)
        } else if !self.delegations.contains_key((delegator, candidate)) {
            Some(Error::DelegationDoesNotExist)
        } else {
            let current = self.delegations[(delegator, candidate)].amount;
            if amount > current {
                Some(Error::InvalidMinimumDelegateAmount)
            } else if amount == current {
                if !self.delegators_of(candidate).contains(delegator) {
                    Some(Error::DelegationDoesNotExist)
                } else {
                    self.stake_decrease_error(candidate, amount)
                }
            } else if current - amount < self.config.min_delegate_amount {
                Some(Error::BelowMinimumDelegateAmount)
            } else {
                self.stake_decrease_error(candidate, amount)
            }
        }
    }

    /// What undelegating returns: the release of the amount, and the record of the withdrawal
    /// with what the delegator keeps behind the candidate.
    pub open spec fn undelegate_outcome(
        self,
        delegator: AccountId,
        candidate: AccountId,
        amount: Balance,
    ) -> Outcome {
        match self.undelegate_error(delegator, candidate, amount) {
            Some(e) => Err(e),
            None => Ok(
                ReceiptView {
                    commands: seq![
                        BalanceCommand::Release {
                            reason: HoldReason::DelegateAmountReserved,
                            who: delegator,
                            amount,
                        },
                    ],
                    events: seq![
                        Event::CandidateUndelegated {
                            candidate_id: candidate,
                            delegator,
                            amount,
                            left_delegated_amount: (self.delegations[(
                                delegator,
                                candidate,
                            )].amount - amount) as Balance,
                        },
                    ],
                    reported: None,
                },
            ),
        }
    }

    /// The ledger after undelegating. The delegation of the pair and the delegated sum of the
    /// candidate shrink by `amount`. A delegation that reaches zero is removed: the delegator
    /// then backs one candidate less and is no longer listed with the candidate.
    pub open spec fn undelegate_state(
        self,
        delegator: AccountId,
        candidate: AccountId,
        amount: Balance,
    ) -> State {
        if self.undelegate_error(delegator, candidate, amount) is Some {
            self
        } else {
            let current = self.delegations[(delegator, candidate)].amount;
            let all = amount == current;
            State {
                candidates: self.candidates.insert(
                    candidate,
                    Candidate {
                        bond: self.candidates[candidate].bond,
                        sum_delegation: (self.candidates[candidate].sum_delegation
                            - amount) as Balance,
                    },
                ),
                delegations: if all {
                    self.delegations.remove((delegator, candidate))
                } else {
                    self.delegations.insert(
                        (delegator, candidate),
                        Delegation { amount: (current - amount) as Balance },
                    )
                },
                delegate_counts: if all {
                    self.delegate_counts.insert(
                        delegator,
                        decremented(self.delegate_count(delegator)),
                    )
                } else {
                    self.delegate_counts
                },
                delegators: if all {
                    self.delegators.insert(
                        candidate,
                        without_delegator(self.delegators_of(candidate), delegator),
                    )
                } else {
                    self.delegators
                },
                ..self
            }
        }
    }

    /// Why `who` cannot claim a reward, if it cannot.
    pub open spec fn claim_error(self, who: AccountId) -> Option<Error> {
        if self.reward_of(who) == 0 {
            Some(Error::NoClaimableRewardFound)
        } else {
            None
        }
    }

    /// What claiming returns: the mint of the accrued reward and the record of the claim.
    pub open spec fn claim_outcome(self, who: AccountId) -> Outcome {
        match self.claim_error(who) {
            Some(e) => Err(e),
            None => Ok(
                ReceiptView {
                    commands: seq![BalanceCommand::Mint { who, amount: self.reward_of(who) }],
                    events: seq![
                        Event::RewardClaimed { claimer: who, total_reward: self.reward_of(who) },
                    ],
                    reported: None,
                },
            ),
        }
    }

    /// The ledger after claiming: `who` has no reward left.
    pub open spec fn claim_state(self, who: AccountId) -> State {
        if self.claim_error(who) is Some {
            self
        } else {
            State { rewards: self.rewards.remove(who), ..self }
        }
    }

    /// Whether each listed delegator of `candidate` has a delegation to it on record.
    pub open spec fn delegators_on_record(self, candidate: AccountId) -> bool {
        forall|i: int|
            0 <= i < self.delegators_of(candidate).len()
                ==> #[trigger] self.delegations.contains_key(
                (self.delegators_of(candidate)[i], candidate),
            )
    }

    /// Why `candidate` cannot leave the pool, if it cannot.
    pub open spec fn unregister_error(self, candidate: AccountId) -> Option<Error> {
        if !self.candidates.contains_key(candidate) {
            Some(Error::CandidateDoesNotExist)
        } else if !self.delegators_on_record(candidate) {
            Some(Error::DelegationDoesNotExist)
        } else {
            None
        }
    }

    /// The releases that give the delegators of `candidate` their delegations back, in the
    /// order of the list.
    pub open spec fn delegator_releases(self, candidate: AccountId) -> Seq<BalanceCommand> {
        Seq::new(
            self.delegators_of(candidate).len(),
            |i: int|
                BalanceCommand::Release {
                    reason: HoldReason::DelegateAmountReserved,
                    who: self.delegators_of(candidate)[i],
                    amount: self.delegations[(self.delegators_of(candidate)[i], candidate)].amount,
                },
        )
    }

    /// What leaving the pool returns. The commands release every delegation to the
    /// candidate, then its bond, and then mint its unclaimed reward if it has one. The events
    /// record the claim, if there was one, and the removal.
    pub open spec fn unregister_outcome(self, candidate: AccountId) -> Outcome {
        match self.unregister_error(candidate) {
            Some(e) => Err(e),
            None => {
                let reward = self.reward_of(candidate);
                let release_bond = BalanceCommand::Release {
                    reason: HoldReason::CandidateBondReserved,
                    who: candidate,
                    amount: self.candidates[candidate].bond,
                };
                let removed = Event::CandidateRegistrationRemoved { candidate_id: candidate };
                Ok(
                    if reward > 0 {
                        ReceiptView {
                            commands: self.delegator_releases(candidate).push(release_bond).push(
                                BalanceCommand::Mint { who: candidate, amount: reward },
                            ),
                            events: seq![
                                Event::RewardClaimed { claimer: candidate, total_reward: reward },
                                removed,
                            ],
                            reported: None,
                        }
                    } else {
                        ReceiptView {
                            commands: self.delegator_releases(candidate).push(release_bond),
                            events: seq![removed],
                            reported: None,
                        }
                    },
                )
            },
        }
    }

    /// The delegations without those of the first `n` listed delegators of `candidate`.
    pub open spec fn delegations_released(self, candidate: AccountId, n: int) -> Map<
        (AccountId, AccountId),
        Delegation,
    > {
        Map::new(
            |pair: (AccountId, AccountId)|
                self.delegations.contains_key(pair) && !(pair.1 == candidate
                    && self.delegators_of(candidate).take(n).contains(pair.0)),
            |pair: (AccountId, AccountId)| self.delegations[pair],
        )
    }

    /// The delegate counts after the first `n` listed delegators of `candidate` have each
    /// lost one candidate.
    pub open spec fn counts_released(self, candidate: AccountId, n: int) -> Map<AccountId, u32> {
        Map::new(
            |who: AccountId|
                self.delegate_counts.contains_key(who) || self.delegators_of(candidate).take(
                    n,
                ).contains(who),
            |who: AccountId|
                if self.delegators_of(candidate).take(n).contains(who) {
                    decremented(self.delegate_count(who))
                } else {
                    self.delegate_counts[who]
                },
        )
    }

    /// The ledger after `candidate` has left the pool. Its record, its list of delegators and
    /// its unclaimed reward are gone. So is the delegation of each listed delegator to it,
    /// and each of them backs one candidate less.
    pub open spec fn unregister_state(self, candidate: AccountId) -> State {
        if self.unregister_error(candidate) is Some {
            self
        } else {
            let n = self.delegators_of(candidate).len() as int;
            State {
                candidates: self.candidates.remove(candidate),
                delegations: self.delegations_released(candidate, n),
                delegate_counts: self.counts_released(candidate, n),
                delegators: self.delegators.remove(candidate),
                rewards: if self.reward_of(candidate) > 0 {
                    self.rewards.remove(candidate)
                } else {
                    self.rewards
                },
                ..self
            }
        }
    }
}

impl Pallet {
    /// Registers `who` as a candidate with `initial_bond`.
    ///
    /// Refused with `InvalidZeroAmount` for a bond of zero, with `BelowMinimumCandidateBond`
    /// for a bond below the configured minimum, with `CandidateAlreadyExist` when `who` is in
    /// the pool, and with `TooManyValidators` when the pool is full, in this order.
    pub fn register_as_candidate(&mut self, who: AccountId, initial_bond: Balance) -> (r: Result<
        Receipt,
        Error,
    >)
        requires
            old(self).wf(),
        ensures
            final(self).wf(),
            outcome_of(r) == old(self)@.register_outcome(who, initial_bond),
            final(self)@ == old(self)@.register_state(who, initial_bond),
    {
        if initial_bond == 0 {
            return Err(Error::InvalidZeroAmount);
        }
        if initial_bond < self.config.min_candidate_bond {
            return Err(Error::BelowMinimumCandidateBond);
        }
        if self.is_candidate(&who) {
            return Err(Error::CandidateAlreadyExist);
        }
        if self.candidate_count() >= self.config.max_candidates as usize {
            return Err(Error::TooManyValidators);
        }
        self.put_candidate(who, Candidate::new(initial_bond));
        proof {
            lemma_register_wf(old(self)@, who, initial_bond);
        }
        let mut commands: Vec<BalanceCommand> = Vec::new();
        commands.push(
            BalanceCommand::Hold {
                reason: HoldReason::CandidateBondReserved,
                who,
                amount: initial_bond,
            },
        );
        let mut events: Vec<Event> = Vec::new();
        events.push(Event::CandidateRegistered { candidate_id: who, initial_bond });
        let receipt = Receipt { commands, events, reported: None };
        Ok(receipt)
    }

    /// Pays out the reward that `who` has accrued.
    ///
    /// Refused with `NoClaimableRewardFound` when there is none.
    pub fn claim_reward(&mut self, who: AccountId) -> (r: Result<Receipt, Error>)
        requires
            old(self).wf(),
        ensures
            final(self).wf(),
            outcome_of(r) == old(self)@.claim_outcome(who),
            final(self)@ == old(self)@.claim_state(who),
    {
        let amount = self.reward(&who);
        if amount == 0 {
            return Err(Error::NoClaimableRewardFound);
        }
        self.drop_reward(who);
        proof {
            lemma_claim_wf(old(self)@, who);
        }
        let mut commands: Vec<BalanceCommand> = Vec::new();
        commands.push(BalanceCommand::Mint { who, amount });
        let mut events: Vec<Event> = Vec::new();
        events.push(Event::RewardClaimed { claimer: who, total_reward: amount });
        let receipt = Receipt { commands, events, reported: None };
        Ok(receipt)
    }

    /// Tells whether `amount` is a delegation of allowed size: `BelowMinimumDelegateAmount`
    /// if it is below the configured minimum.
    fn check_delegated_amount(&self, amount: Balance) -> (r: Result<(), Error>)
        ensures
            r == if amount >= self@.config.min_delegate_amount {
                Ok::<(), Error>(())
            } else {
                Err::<(), Error>(Error::BelowMinimumDelegateAmount)
            },
    {
        if amount >= self.config.min_delegate_amount {
            Ok(())
        } else {
            Err(Error::BelowMinimumDelegateAmount)
        }
    }

    /// Lists `delegator` among the delegators of `candidate`, where it is not listed yet.
    ///
    /// Refused with `TooManyDelegatorsInPool` when the list is full.
    pub fn add_candidate_delegator(&mut self, candidate: &AccountId, delegator: &AccountId) -> (r:
        Result<(), Error>)
        requires
            old(self)@.delegators_ordered(),
        ensures
            r == if old(self)@.delegators_of(*candidate).len()
                >= old(self)@.config.max_candidate_delegators {
                Err::<(), Error>(Error::TooManyDelegatorsInPool)
            } else {
                Ok::<(), Error>(())
            },
            r is Err ==> final(self)@ == old(self)@,
            r is Ok ==> final(self)@ == (State {
                delegators: old(self)@.delegators.insert(
                    *candidate,
                    with_delegator(old(self)@.delegators_of(*candidate), *delegator),
                ),
                ..old(self)@
            }),
            old(self).wf() ==> final(self).wf(),
    {
        if self.delegator_count(candidate) >= self.config.max_candidate_delegators as usize {
            return Err(Error::TooManyDelegatorsInPool);
        }
        let mut list = match self.candidate_delegators.remove(candidate) {
            Some(list) => list,
            None => Vec::new(),
        };
        insert(&mut list, *delegator);
        self.candidate_delegators.insert(*candidate, list);
        proof {
            let after = State {
                delegators: old(self)@.delegators.insert(
                    *candidate,
                    with_delegator(old(self)@.delegators_of(*candidate), *delegator),
                ),
                ..old(self)@
            };
            assert(self@ =~~= after);
            if old(self).wf() {
                lemma_with_delegator(old(self)@.delegators_of(*candidate), *delegator);
                lemma_stakes_untouched(old(self)@, after);
            }
        }
        Ok(())
    }

    /// Adds `amount` to the delegated sum of `candidate` and returns the new sum.
    ///
    /// Refused with `CandidateDoesNotExist` when the account is not in the pool and with
    /// `Overflow` when the sum would leave the range of balances.
    fn increase_candidate_delegations(&mut self, candidate: &AccountId, amount: &Balance) -> (r:
        DispatchResultWithValue<Balance>)
        ensures
            match old(self)@.stake_increase_error(*candidate, *amount) {
                Some(e) => r == Err::<Balance, Error>(e) && final(self)@ == old(self)@,
                None => {
                    let sum = (old(self)@.candidates[*candidate].sum_delegation
                        + *amount) as Balance;
                    &&& r == Ok::<Balance, Error>(sum)
                    &&& final(self)@ == (State {
                        candidates: old(self)@.candidates.insert(
                            *candidate,
                            Candidate {
                                bond: old(self)@.candidates[*candidate].bond,
                                sum_delegation: sum,
                            },
                        ),
                        ..old(self)@
                    })
                },
            },
    {
        let mut record = self.get_candidate(candidate)?;
        let sum = record.add_delegated_amount(*amount)?;
        self.put_candidate(*candidate, record);
        Ok(sum)
    }

    /// Takes `amount` from the delegated sum of `candidate` and returns the new sum.
    ///
    /// Refused with `CandidateDoesNotExist` when the account is not in the pool and with
    /// `Overflow` when the sum is smaller than `amount`.
    fn decrease_candidate_delegations(&mut self, candidate: &AccountId, amount: &Balance) -> (r:
        DispatchResultWithValue<Balance>)
        ensures
            match old(self)@.stake_decrease_error(*candidate, *amount) {
                Some(e) => r == Err::<Balance, Error>(e) && final(self)@ == old(self)@,
                None => {
                    let sum = (old(self)@.candidates[*candidate].sum_delegation
                        - *amount) as Balance;
                    &&& r == Ok::<Balance, Error>(sum)
                    &&& final(self)@ == (State {
                        candidates: old(self)@.candidates.insert(
                            *candidate,
                            Candidate {
                                bond: old(self)@.candidates[*candidate].bond,
                                sum_delegation: sum,
                            },
                        ),
                        ..old(self)@
                    })
                },
            },
    {
        let mut record = self.get_candidate(candidate)?;
        let sum = record.sub_delegated_amount(*amount)?;
        self.put_candidate(*candidate, record);
        Ok(sum)
    }

    /// The command that gives a candidate its bond back.
    pub fn release_candidate_bonds(candidate: &AccountId, bond: Balance) -> (command:
        BalanceCommand)
        ensures
            command == (BalanceCommand::Release {
                reason: HoldReason::CandidateBondReserved,
                who: *candidate,
                amount: bond,
            }),
    {
        BalanceCommand::Release {
            reason: HoldReason::CandidateBondReserved,
            who: *candidate,
            amount: bond,
        }
    }

    /// The command that gives a delegator a delegated amount back.
    fn release_delegated_amount(delegator: &AccountId, amount: &Balance) -> (command:
        BalanceCommand)
        ensures
            command == (BalanceCommand::Release {
                reason: HoldReason::DelegateAmountReserved,
                who: *delegator,
                amount: *amount,
            }),
    {
        BalanceCommand::Release {
            reason: HoldReason::DelegateAmountReserved,
            who: *delegator,
            amount: *amount,
        }
    }

    /// Forgets that `delegator` backs `candidate`: the delegation is removed, the delegator
    /// backs one candidate less, and it leaves the candidate's list.
    ///
    /// Refused with `DelegationDoesNotExist` when the delegator is not on the list.
    fn remove_candidate_delegation_data(
        &mut self,
        delegator: &AccountId,
        candidate: &AccountId,
    ) -> (r: Result<(), Error>)
        requires
            old(self)@.delegators_ordered(),
        ensures
            r == if old(self)@.delegators_of(*candidate).contains(*delegator) {
                Ok::<(), Error>(())
            } else {
                Err::<(), Error>(Error::DelegationDoesNotExist)
            },
            r is Err ==> final(self)@ == old(self)@,
            r is Ok ==> final(self)@ == (State {
                delegations: old(self)@.delegations.remove((*delegator, *candidate)),
                delegate_counts: old(self)@.delegate_counts.insert(
                    *delegator,
                    decremented(old(self)@.delegate_count(*delegator)),
                ),
                delegators: old(self)@.delegators.insert(
                    *candidate,
                    without_delegator(old(self)@.delegators_of(*candidate), *delegator),
                ),
                ..old(self)@
            }),
    {
        let mut list = match self.candidate_delegators.remove(candidate) {
            Some(list) => list,
            None => {
                return Err(Error::DelegationDoesNotExist);
            },
        };
        let listed = remove(&mut list, *delegator);
        self.candidate_delegators.insert(*candidate, list);
        if !listed {
            return Err(Error::DelegationDoesNotExist);
        }
        let count = self.delegate_count(delegator);
        self.delegation_infos.remove(&(*delegator, *candidate));
        self.delegate_count_map.insert(*delegator, count.saturating_sub(1));
        Ok(())
    }

    /// Puts `amount` of `delegator` behind `candidate`, on top of what is there already.
    ///
    /// Refused with `InvalidZeroAmount` for an amount of zero. Where the pair has a
    /// delegation: with `Overflow` when the new amount leaves the range of balances, and with
    /// `BelowMinimumDelegateAmount` when it is below the configured minimum. Where it has
    /// none: with `BelowMinimumDelegateAmount` for an amount below the minimum, with
    /// `TooManyCandidateDelegations` when the delegator backs the largest allowed number of
    /// candidates, and with `TooManyDelegatorsInPool` when the candidate's list is full. Then
    /// with `CandidateDoesNotExist` when the candidate is not in the pool, and with `Overflow`
    /// when its delegated sum would leave the range of balances.
    pub fn delegate(&mut self, delegator: AccountId, candidate: AccountId, amount: Balance) -> (r:
        Result<Receipt, Error>)
        requires
            old(self).wf(),
        ensures
            final(self).wf(),
            outcome_of(r) == old(self)@.delegate_outcome(delegator, candidate, amount),
            final(self)@ == old(self)@.delegate_state(delegator, candidate, amount),
    {
        if amount == 0 {
            return Err(Error::InvalidZeroAmount);
        }
        let first: bool;
        let delegated: Balance;
        match self.get_delegation(&delegator, &candidate) {
            Ok(current) => {
                delegated = match current.amount.checked_add(amount) {
                    Some(sum) => sum,
                    None => {
                        return Err(Error::Overflow);
                    },
                };
                self.check_delegated_amount(delegated)?;
                first = false;
            },
            Err(_) => {
                self.check_delegated_amount(amount)?;
                if self.delegate_count(&delegator) >= self.config.max_delegate_count {
                    return Err(Error::TooManyCandidateDelegations);
                }
                if self.delegator_count(&candidate)
                    >= self.config.max_candidate_delegators as usize {
                    return Err(Error::TooManyDelegatorsInPool);
                }
                delegated = amount;
                first = true;
            },
        }
        let total_delegated_amount = self.increase_candidate_delegations(&candidate, &amount)?;
        if first {
            let count = self.delegate_count(&delegator);
            self.put_delegate_count(delegator, count + 1);
            self.add_candidate_delegator(&candidate, &delegator)?;
        }
        self.put_delegation(delegator, candidate, Delegation::new(delegated));
        proof {
            lemma_delegate_wf(old(self)@, delegator, candidate, amount);
        }
        let mut commands: Vec<BalanceCommand> = Vec::new();
        commands.push(
            BalanceCommand::Hold {
                reason: HoldReason::DelegateAmountReserved,
                who: delegator,
                amount,
            },
        );
        let mut events: Vec<Event> = Vec::new();
        events.push(
            Event::CandidateDelegated {
                candidate_id: candidate,
                delegated_by: delegator,
                amount,
                total_delegated_amount,
            },
        );
        let receipt = Receipt { commands, events, reported: None };
        Ok(receipt)
    }

    /// Gives `delegator` back `amount` of what it has behind `candidate`.
    ///
    /// Refused, in this order: with `CandidateDoesNotExist` when the candidate is not in the
    /// pool; with `InvalidZeroAmount` for an amount of zero; with `DelegationDoesNotExist`
    /// when the pair has no delegation; with `InvalidMinimumDelegateAmount` when `amount` is
    /// more than the delegation; where the whole delegation is taken back, with
    /// `DelegationDoesNotExist` when the delegator is missing from the candidate's list;
    /// where a part stays, with `BelowMinimumDelegateAmount` when that part is below the
    /// configured minimum; with `Overflow` when the candidate's delegated sum is smaller than
    /// `amount`.
    pub fn undelegate(&mut self, delegator: AccountId, candidate: AccountId, amount: Balance) -> (r:
        Result<Receipt, Error>)
        requires
            old(self).wf(),
        ensures
            final(self).wf(),
            outcome_of(r) == old(self)@.undelegate_outcome(delegator, candidate, amount),
            final(self)@ == old(self)@.undelegate_state(delegator, candidate, amount),
    {
        if !self.is_candidate(&candidate) {
            return Err(Error::CandidateDoesNotExist);
        }
        if amount == 0 {
            return Err(Error::InvalidZeroAmount);
        }
        let mut delegation = self.get_delegation(&delegator, &candidate)?;
        let left_delegated_amount = match delegation.amount.checked_sub(amount) {
            Some(left) => left,
            None => {
                return Err(Error::InvalidMinimumDelegateAmount);
            },
        };
        if left_delegated_amount == 0 {
            self.decrease_candidate_delegations(&candidate, &amount)?;
            self.remove_candidate_delegation_data(&delegator, &candidate)?;
        } else {
            self.check_delegated_amount(left_delegated_amount)?;
            self.decrease_candidate_delegations(&candidate, &amount)?;
            delegation.set_amount(left_delegated_amount);
            self.put_delegation(delegator, candidate, delegation);
        }
        proof {
            lemma_undelegate_wf(old(self)@, delegator, candidate, amount);
        }
        let mut commands: Vec<BalanceCommand> = Vec::new();
        commands.push(Self::release_delegated_amount(&delegator, &amount));
        let mut events: Vec<Event> = Vec::new();
        events.push(
            Event::CandidateUndelegated {
                candidate_id: candidate,
                delegator,
                amount,
                left_delegated_amount,
            },
        );
        let receipt = Receipt { commands, events, reported: None };
        Ok(receipt)
    }
    /// Removes `candidate` from the pool and gives back everything that is held for it: each
    /// listed delegator gets its delegation back, the candidate its bond and its unclaimed
    /// reward.
    ///
    /// Refused with `CandidateDoesNotExist` when the account is not in the pool, and with
    /// `DelegationDoesNotExist` when a listed delegator has no delegation on record. Nothing
    /// is changed before every delegation has been found.
    pub fn unregister_as_candidate(&mut self, candidate: AccountId) -> (r: Result<Receipt, Error>)
        requires
            old(self).wf(),
        ensures
            final(self).wf(),
            outcome_of(r) == old(self)@.unregister_outcome(candidate),
            final(self)@ == old(self)@.unregister_state(candidate),
    {
        let record = self.get_candidate(&candidate)?;
        let list = self.candidate_delegators(&candidate);
        let mut commands: Vec<BalanceCommand> = Vec::new();
        let mut i: usize = 0;
        while i < list.len()
            invariant
                i <= list.len(),
                old(self).wf(),
                old(self)@.candidates.contains_key(candidate),
                self@ == old(self)@,
                list@ == self@.delegators_of(candidate),
                commands@ == self@.delegator_releases(candidate).take(i as int),
                forall|j: int|
                    0 <= j < i ==> #[trigger] self@.delegations.contains_key(
                        (self@.delegators_of(candidate)[j], candidate),
                    ),
            decreases list.len() - i,
        {
            let delegation = match self.get_delegation(&list[i], &candidate) {
                Ok(delegation) => delegation,
                Err(e) => {
                    return Err(e);
                },
            };
            commands.push(Self::release_delegated_amount(&list[i], &delegation.amount));
            i = i + 1;
        }
        assert(self@.delegator_releases(candidate).take(list.len() as int)
            == self@.delegator_releases(candidate));
        let mut k: usize = 0;
        while k < list.len()
            invariant
                k <= list.len(),
                old(self).wf(),
                list@ == old(self)@.delegators_of(candidate),
                self@ == (State {
                    delegations: old(self)@.delegations_released(candidate, k as int),
                    delegate_counts: old(self)@.counts_released(candidate, k as int),
                    ..old(self)@
                }),
            decreases list.len() - k,
        {
            let delegator = list[k];
            let count = self.delegate_count(&delegator);
            self.drop_delegation(delegator, candidate);
            self.put_delegate_count(delegator, count.saturating_sub(1));
            proof {
                assert forall|x: AccountId|
                    list@.take(k + 1).contains(x) <==> (list@.take(k as int).contains(x) || x
                        == delegator) by {
                    lemma_take_next(list@, k as int, x);
                }
            }
            k = k + 1;
        }
        self.drop_delegators(candidate);
        commands.push(Self::release_candidate_bonds(&candidate, record.bond));
        let mut events: Vec<Event> = Vec::new();
        let reward = self.reward(&candidate);
        if reward > 0 {
            commands.push(BalanceCommand::Mint { who: candidate, amount: reward });
            self.drop_reward(candidate);
            events.push(Event::RewardClaimed { claimer: candidate, total_reward: reward });
        }
        self.drop_candidate(candidate);
        events.push(Event::CandidateRegistrationRemoved { candidate_id: candidate });
        let receipt = Receipt { commands, events, reported: None };
        proof {
            lemma_unregister_wf(old(self)@, candidate);
            let expected = old(self)@.unregister_outcome(candidate)->Ok_0;
            assert(receipt@.events =~= expected.events);
        }
        Ok(receipt)
    }
}

} // verus!
