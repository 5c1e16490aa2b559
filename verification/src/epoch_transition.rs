//! What happens at the start of every block: rewards are credited, and at an epoch boundary
//! the validator set is replaced, the stakes are frozen in a new snapshot, and the epoch
//! counter moves on.
use crate::delegators::lemma_take_next;
use crate::models::{Epoch, EpochView};
use crate::pallet::Pallet;
use crate::selection::{has_account, Entry};
use crate::staking::outcome_of;
use crate::state::{lemma_stakes_untouched, State};
use crate::types::{
    AccountId, Balance, BlockNumber, Error, Event, Receipt, ReceiptView, TopCandidateVec,
};
use vstd::prelude::*;

verus! {

/// Whoever has to know the active validator set implements this.
pub trait ReportNewValidatorSet<AccountId> {
    /// Is handed the accounts of every new validator set, best first. Does nothing unless
    /// it is overridden.
    fn report_new_validator_set(_new_set: Vec<AccountId>) {
    }
}

/// The stake of each validator of `set`: its bond. Where an account stands in `set` more
/// than once, its last entry counts.
pub open spec fn snapshot_validators(set: Seq<Entry>) -> Map<AccountId, Balance>
    decreases set.len(),
{
    if set.len() == 0 {
        Map::empty()
    } else {
        snapshot_validators(set.drop_last()).insert(set.last().0, set.last().1)
    }
}

/// The accounts of `set`, in its order.
pub open spec fn accounts_of(set: Seq<Entry>) -> Seq<AccountId> {
    Seq::new(set.len(), |i: int| set[i].0)
}

impl State {
    /// The delegations that count for the validators of `set`: those of the listed
    /// delegators of each validator that are on record.
    pub open spec fn snapshot_delegations(self, set: Seq<Entry>) -> Map<
        (AccountId, AccountId),
        Balance,
    > {
        Map::new(
            |pair: (AccountId, AccountId)|
                has_account(set, pair.1) && self.delegators_of(pair.1).contains(pair.0)
                    && self.delegations.contains_key(pair),
            |pair: (AccountId, AccountId)| self.delegations[pair].amount,
        )
    }

    /// The delegations that count for the first `i` validators of `set` and for the first
    /// `k` listed delegators of the next one.
    pub open spec fn snapshot_progress(self, set: Seq<Entry>, i: int, k: int) -> Map<
        (AccountId, AccountId),
        Balance,
    > {
        Map::new(
            |pair: (AccountId, AccountId)|
                (has_account(set.take(i), pair.1) || (pair.1 == set[i].0 && self.delegators_of(
                    set[i].0,
                ).take(k).contains(pair.0))) && self.delegators_of(pair.1).contains(pair.0)
                    && self.delegations.contains_key(pair),
            |pair: (AccountId, AccountId)| self.delegations[pair].amount,
        )
    }

    /// The snapshot that freezes the stakes behind the validators of `set`.
    pub open spec fn snapshot_of(self, set: Seq<Entry>) -> EpochView {
        EpochView {
            validators: snapshot_validators(set),
            delegations: self.snapshot_delegations(set),
        }
    }

    /// Whether an epoch ends with block `n`.
    pub open spec fn is_boundary(self, n: BlockNumber) -> bool {
        n % self.config.epoch_duration == 0
    }

    /// The epoch index after the next boundary. It stops at the largest index.
    pub open spec fn next_epoch_index(self) -> u32 {
        if self.epoch_index == u32::MAX {
            u32::MAX
        } else {
            (self.epoch_index + 1) as u32
        }
    }

    /// The record of the epoch that ends at block `n` with `validators` selected.
    pub open spec fn epoch_event(self, n: BlockNumber, validators: Seq<Entry>) -> Event {
        Event::NextEpochMoved {
            last_epoch: self.epoch_index,
            next_epoch: self.next_epoch_index(),
            at_block: n,
            total_candidates: self.candidates.len() as u64,
            total_validators: validators.len() as u64,
        }
    }

    /// Whether `after` and `receipt` are what the start of block `n`, written by `author`,
    /// makes of this ledger.
    ///
    /// The rewards of the block are credited first, from the snapshot that the ledger holds.
    /// Inside an epoch nothing else happens. At a boundary the validator set is selected
    /// anew, the snapshot is replaced by one of the new set, the epoch index moves on, the
    /// accounts of the new set are reported, and one event records it.
    pub open spec fn initialized(
        self,
        n: BlockNumber,
        author: Option<AccountId>,
        after: State,
        receipt: ReceiptView,
    ) -> bool {
        let credited = self.rewarded(author);
        if !self.is_boundary(n) {
            after == credited && receipt == ReceiptView::empty()
        } else {
            &&& credited.is_selection(after.validators)
            &&& after == (State {
                validators: after.validators,
                snapshot: Some(credited.snapshot_of(after.validators)),
                epoch_index: self.next_epoch_index(),
                ..credited
            })
            &&& receipt == (ReceiptView {
                commands: Seq::empty(),
                events: seq![self.epoch_event(n, after.validators)],
                reported: Some(accounts_of(after.validators)),
            })
        }
    }
}

/// The start of a block keeps the ledger well formed.
pub proof fn lemma_initialize_wf(
    before: State,
    block: BlockNumber,
    author: Option<AccountId>,
    after: State,
    receipt: ReceiptView,
)
    requires
        before.wf(),
        before.initialized(block, author, after, receipt),
    ensures
        after.wf(),
{
    let credited = before.rewarded(author);
    assert(credited.wf()) by {
        lemma_stakes_untouched(before, credited);
    }
    lemma_stakes_untouched(credited, after);
}

impl Pallet {
    /// Hands the accounts of a new validator set to whoever has to know them.
    pub fn report_new_validators<R: ReportNewValidatorSet<AccountId>>(new_set: Vec<AccountId>) {
        R::report_new_validator_set(new_set);
    }

    /// Reports `new_set` as the validator set, whatever the ledger holds.
    ///
    /// Refused with `TooManyValidators`, and nothing is reported, unless `new_set` has fewer
    /// accounts than the configured maximum of validators.
    pub fn force_report_new_validators<R: ReportNewValidatorSet<AccountId>>(
        &self,
        new_set: Vec<AccountId>,
    ) -> (r: Result<Receipt, Error>)
        ensures
            outcome_of(r) == if new_set@.len() < self@.config.max_validators {
                Ok::<ReceiptView, Error>(
                    ReceiptView {
                        commands: Seq::empty(),
                        events: Seq::empty(),
                        reported: Some(new_set@),
                    },
                )
            } else {
                Err::<ReceiptView, Error>(Error::TooManyValidators)
            },
    {
        if new_set.len() >= self.config.max_validators as usize {
            return Err(Error::TooManyValidators);
        }
        let reported = Self::copy_of(&new_set);
        Self::report_new_validators::<R>(new_set);
        Ok(Receipt { commands: Vec::new(), events: Vec::new(), reported: Some(reported) })
    }

    /// A list with the same accounts.
    pub(crate) fn copy_of(accounts: &Vec<AccountId>) -> (copy: Vec<AccountId>)
        ensures
            copy@ == accounts@,
    {
        let mut copy: Vec<AccountId> = Vec::new();
        let mut i: usize = 0;
        while i < accounts.len()
            invariant
                i <= accounts.len(),
                copy@ == accounts@.take(i as int),
            decreases accounts.len() - i,
        {
            copy.push(accounts[i]);
            i = i + 1;
        }
        copy
    }

    /// Freezes the stakes behind the validators of `validator_set`: the bond of each
    /// validator, and the delegation of each of its listed delegators that is on record.
    pub fn capture_epoch_snapshot(&self, validator_set: &TopCandidateVec) -> (epoch: Epoch)
        ensures
            epoch@ == self@.snapshot_of(validator_set@),
    {
        let mut epoch = Epoch::default();
        let ghost set = validator_set@;
        let mut i: usize = 0;
        while i < validator_set.len()
            invariant
                i <= validator_set.len(),
                set == validator_set@,
                epoch@ == self@.snapshot_of(set.take(i as int)),
            decreases validator_set.len() - i,
        {
            let validator = validator_set[i].0;
            let bond = validator_set[i].1;
            epoch.add_validator(validator, bond);
            assert(epoch@.validators == snapshot_validators(set.take(i + 1))) by {
                assert(set.take(i + 1).drop_last() == set.take(i as int));
            }
            let ghost listed = self@.delegators_of(validator);
            let mut k: usize = 0;
            match self.candidate_delegators.get(&validator) {
                Some(list) => {
                    while k < list.len()
                        invariant
                            k <= list.len(),
                            i < set.len(),
                            validator == set[i as int].0,
                            list@ == self@.delegators_of(validator),
                            listed == list@,
                            epoch@.validators == snapshot_validators(set.take(i + 1)),
                            epoch@.delegations == self@.snapshot_progress(set, i as int, k as int),
                        decreases list.len() - k,
                    {
                        let delegator = list[k];
                        match self.delegation_infos.get(&(delegator, validator)) {
                            Some(delegation) => {
                                epoch.add_delegator(delegator, validator, delegation.amount);
                            },
                            None => {},
                        }
                        proof {
                            let next = self@.snapshot_progress(set, i as int, k + 1);
                            assert forall|pair: (AccountId, AccountId)|
                                epoch@.delegations.contains_key(pair) <==> next.contains_key(
                                    pair,
                                ) by {
                                lemma_take_next(listed, k as int, pair.0);
                            }
                        }
                        k = k + 1;
                    }
                },
                None => {},
            }
            proof {
                assert(listed.take(k as int) == listed);
            }
            i = i + 1;
        }
        assert(set.take(validator_set.len() as int) == set);
        epoch
    }

    /// Moves the epoch index on by one and returns the record of the epoch that ended at
    /// block `at_block` with `validator_set` selected.
    pub(crate) fn move_to_next_epoch(
        &mut self,
        at_block: BlockNumber,
        validator_set: &TopCandidateVec,
    ) -> (event: Event)
        ensures
            event == old(self)@.epoch_event(at_block, validator_set@),
            final(self)@ == (State {
                epoch_index: old(self)@.next_epoch_index(),
                ..old(self)@
            }),
    {
        let epoch_index = self.epoch_index;
        let next_epoch_index = epoch_index.saturating_add(1);
        self.epoch_index = next_epoch_index;
        Event::NextEpochMoved {
            last_epoch: epoch_index,
            next_epoch: next_epoch_index,
            at_block,
            total_candidates: self.candidate_pool.len() as u64,
            total_validators: validator_set.len() as u64,
        }
    }

    /// The accounts of `validator_set`, in its order.
    pub(crate) fn validator_accounts(validator_set: &TopCandidateVec) -> (accounts: Vec<AccountId>)
        ensures
            accounts@ == accounts_of(validator_set@),
    {
        let mut accounts: Vec<AccountId> = Vec::new();
        let mut i: usize = 0;
        while i < validator_set.len()
            invariant
                i <= validator_set.len(),
                accounts@ == accounts_of(validator_set@.take(i as int)),
            decreases validator_set.len() - i,
        {
            accounts.push(validator_set[i].0);
            i = i + 1;
        }
        accounts
    }

    /// Starts block `n`, written by `author`.
    ///
    /// The rewards of the block are credited first. If an epoch ends with the block, the
    /// validator set is selected anew and installed, its stakes are frozen in a new snapshot,
    /// its accounts are reported through `R`, and the epoch index moves on.
    pub fn on_initialize<R: ReportNewValidatorSet<AccountId>>(
        &mut self,
        n: BlockNumber,
        author: Option<AccountId>,
    ) -> (receipt: Receipt)
        requires
            old(self).wf(),
        ensures
            final(self).wf(),
            old(self)@.initialized(n, author, final(self)@, receipt@),
    {
        self.execute_rewards(author);
        let mut receipt = Receipt::new();
        if n % self.config.epoch_duration == 0 {
            let validator_set = self.select_validator_set();
            let snapshot = self.capture_epoch_snapshot(&validator_set);
            let new_set = Self::validator_accounts(&validator_set);
            self.last_epoch_snapshot = Some(snapshot);
            receipt.reported = Some(Self::copy_of(&new_set));
            Self::report_new_validators::<R>(new_set);
            let event = self.move_to_next_epoch(n, &validator_set);
            receipt.events.push(event);
            self.current_validators = validator_set;
        }
        proof {
            lemma_initialize_wf(old(self)@, n, author, self@, receipt@);
        }
        receipt
    }
}

} // verus!
