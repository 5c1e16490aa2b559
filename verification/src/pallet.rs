//! The ledger itself: its storage, its view as a mathematical value, and read access.
use crate::config::Config;
use crate::listing::{entries_of, is_listing};
use crate::models::{Candidate, Delegation, DispatchResultWithValue, Epoch};
use crate::state::{lemma_empty_wf, State};
use crate::types::{AccountId, Balance, Error};
use std::collections::BTreeMap;
use vstd::prelude::*;
use vstd::std_specs::btree::increasing_seq;

verus! {

/// The staking ledger of one deployment.
#[derive(Clone, Debug)]
pub struct Pallet {
    /// The limits of the deployment.
    pub(crate) config: Config,
    /// The candidate pool.
    pub(crate) candidate_pool: BTreeMap<AccountId, Candidate>,
    /// For each delegator, the number of candidates that it backs.
    pub(crate) delegate_count_map: BTreeMap<AccountId, u32>,
    /// The delegation of each `(delegator, candidate)` pair.
    pub(crate) delegation_infos: BTreeMap<(AccountId, AccountId), Delegation>,
    /// For each candidate, its delegators in increasing order.
    pub(crate) candidate_delegators: BTreeMap<AccountId, Vec<AccountId>>,
    /// The number of epochs that have ended.
    pub(crate) epoch_index: u32,
    /// The active validator set, best first.
    pub(crate) current_validators: Vec<(AccountId, Balance, Balance)>,
    /// The stakes frozen at the last epoch boundary.
    pub(crate) last_epoch_snapshot: Option<Epoch>,
    /// Accrued rewards that were not claimed yet.
    pub(crate) rewards: BTreeMap<AccountId, Balance>,
}

impl View for Pallet {
    type V = State;

    open(crate) spec fn view(&self) -> State {
        State {
            config: self.config,
            candidates: self.candidate_pool@,
            delegate_counts: self.delegate_count_map@,
            delegations: self.delegation_infos@,
            delegators: self.candidate_delegators@.map_values(|list: Vec<AccountId>| list@),
            epoch_index: self.epoch_index,
            validators: self.current_validators@,
            snapshot: match self.last_epoch_snapshot {
                Some(epoch) => Some(epoch@),
                None => None,
            },
            rewards: self.rewards@,
        }
    }
}

impl Pallet {
    /// The ledger is well formed. Every operation keeps it so.
    pub open spec fn wf(&self) -> bool {
        self@.wf()
    }

    /// An empty ledger under `config`. Fails with `InvalidConfiguration` when the
    /// configuration is not usable.
    pub fn new(config: Config) -> (r: Result<Pallet, Error>)
        ensures
            match r {
                Ok(pallet) => config.valid() && pallet@ == State::empty(config) && pallet.wf(),
                Err(e) => !config.valid() && e == Error::InvalidConfiguration,
            },
    {
        if !config.is_valid() {
            return Err(Error::InvalidConfiguration);
        }
        let pallet = Pallet {
            config,
            candidate_pool: BTreeMap::new(),
            delegate_count_map: BTreeMap::new(),
            delegation_infos: BTreeMap::new(),
            candidate_delegators: BTreeMap::new(),
            epoch_index: 0,
            current_validators: Vec::new(),
            last_epoch_snapshot: None,
            rewards: BTreeMap::new(),
        };
        proof {
            lemma_empty_wf(config);
        }
        Ok(pallet)
    }

    /// The limits under which the ledger runs.
    pub fn config(&self) -> (config: Config)
        ensures
            config == self@.config,
    {
        self.config
    }

    /// Tells whether the account is in the candidate pool.
    pub fn is_candidate(&self, validator: &AccountId) -> (found: bool)
        ensures
            found == self@.candidates.contains_key(*validator),
    {
        self.candidate_pool.contains_key(validator)
    }

    /// The record of a candidate. Fails with `CandidateDoesNotExist` when the account is not
    /// in the pool.
    pub fn get_candidate(&self, candidate: &AccountId) -> (r: DispatchResultWithValue<Candidate>)
        ensures
            r == if self@.candidates.contains_key(*candidate) {
                Ok::<Candidate, Error>(self@.candidates[*candidate])
            } else {
                Err::<Candidate, Error>(Error::CandidateDoesNotExist)
            },
    {
        match self.candidate_pool.get(candidate) {
            Some(found) => Ok(*found),
            None => Err(Error::CandidateDoesNotExist),
        }
    }

    /// What `delegator` has behind `candidate`. Fails with `DelegationDoesNotExist` when
    /// that is nothing.
    pub fn get_delegation(&self, delegator: &AccountId, candidate: &AccountId) -> (r:
        DispatchResultWithValue<Delegation>)
        ensures
            r == if self@.delegations.contains_key((*delegator, *candidate)) {
                Ok::<Delegation, Error>(self@.delegations[(*delegator, *candidate)])
            } else {
                Err::<Delegation, Error>(Error::DelegationDoesNotExist)
            },
    {
        match self.delegation_infos.get(&(*delegator, *candidate)) {
            Some(found) => Ok(*found),
            None => Err(Error::DelegationDoesNotExist),
        }
    }

    /// The size of the candidate pool.
    pub fn candidate_count(&self) -> (n: usize)
        ensures
            n == self@.candidates.len(),
    {
        self.candidate_pool.len()
    }

    /// The number of candidates that `delegator` backs.
    pub fn delegate_count(&self, delegator: &AccountId) -> (n: u32)
        ensures
            n == self@.delegate_count(*delegator),
    {
        match self.delegate_count_map.get(delegator) {
            Some(n) => *n,
            None => 0,
        }
    }

    /// The reward that `who` has accrued and not claimed.
    pub fn reward(&self, who: &AccountId) -> (amount: Balance)
        ensures
            amount == self@.reward_of(*who),
    {
        match self.rewards.get(who) {
            Some(amount) => *amount,
            None => 0,
        }
    }

    /// The number of delegators of `candidate`.
    pub fn delegator_count(&self, candidate: &AccountId) -> (n: usize)
        ensures
            n == self@.delegators_of(*candidate).len(),
    {
        match self.candidate_delegators.get(candidate) {
            Some(list) => list.len(),
            None => 0,
        }
    }

    /// The delegators of `candidate` in increasing order.
    pub fn candidate_delegators(&self, candidate: &AccountId) -> (list: Vec<AccountId>)
        ensures
            list@ == self@.delegators_of(*candidate),
    {
        let mut list: Vec<AccountId> = Vec::new();
        match self.candidate_delegators.get(candidate) {
            Some(found) => {
                let mut i: usize = 0;
                while i < found.len()
                    invariant
                        i <= found.len(),
                        list@ == found@.take(i as int),
                    decreases found.len() - i,
                {
                    list.push(found[i]);
                    i = i + 1;
                }
            },
            None => {},
        }
        list
    }

    /// The candidate pool, by increasing account.
    pub fn candidates(&self) -> (entries: Vec<(AccountId, Candidate)>)
        ensures
            is_listing(entries@, self@.candidates),
            increasing_seq(entries@.map_values(|entry: (AccountId, Candidate)| entry.0)),
    {
        entries_of(&self.candidate_pool)
    }

    /// All delegations as `((delegator, candidate), delegation)`, by increasing pair.
    pub fn delegations(&self) -> (entries: Vec<((AccountId, AccountId), Delegation)>)
        ensures
            is_listing(entries@, self@.delegations),
            increasing_seq(entries@.map_values(|entry: ((AccountId, AccountId), Delegation)| entry.0)),
    {
        entries_of(&self.delegation_infos)
    }

    /// All recorded rewards, by increasing account.
    pub fn rewards(&self) -> (entries: Vec<(AccountId, Balance)>)
        ensures
            is_listing(entries@, self@.rewards),
            increasing_seq(entries@.map_values(|entry: (AccountId, Balance)| entry.0)),
    {
        entries_of(&self.rewards)
    }

    /// The number of epochs that have ended.
    pub fn epoch_index(&self) -> (index: u32)
        ensures
            index == self@.epoch_index,
    {
        self.epoch_index
    }

    /// The active validator set as `(account, bond, total stake)`, best first.
    pub fn current_validators(&self) -> (set: &Vec<(AccountId, Balance, Balance)>)
        ensures
            set@ == self@.validators,
    {
        &self.current_validators
    }

    /// The stakes frozen at the last epoch boundary, if there was one.
    pub fn last_epoch_snapshot(&self) -> (snapshot: Option<&Epoch>)
        ensures
            match snapshot {
                Some(epoch) => self@.snapshot == Some(epoch@),
                None => self@.snapshot is None,
            },
    {
        match &self.last_epoch_snapshot {
            Some(epoch) => Some(epoch),
            None => None,
        }
    }

    /// Replaces the record of `candidate`.
    pub(crate) fn put_candidate(&mut self, candidate: AccountId, record: Candidate)
        ensures
            final(self)@ == (State {
                candidates: old(self)@.candidates.insert(candidate, record),
                ..old(self)@
            }),
    {
        self.candidate_pool.insert(candidate, record);
    }

    /// Removes the record of `candidate`.
    pub(crate) fn drop_candidate(&mut self, candidate: AccountId)
        ensures
            final(self)@ == (State {
                candidates: old(self)@.candidates.remove(candidate),
                ..old(self)@
            }),
    {
        self.candidate_pool.remove(&candidate);
    }

    /// Replaces the record of what `delegator` has behind `candidate`.
    pub(crate) fn put_delegation(
        &mut self,
        delegator: AccountId,
        candidate: AccountId,
        record: Delegation,
    )
        ensures
            final(self)@ == (State {
                delegations: old(self)@.delegations.insert((delegator, candidate), record),
                ..old(self)@
            }),
    {
        self.delegation_infos.insert((delegator, candidate), record);
    }

    /// Removes the record of what `delegator` has behind `candidate`.
    pub(crate) fn drop_delegation(&mut self, delegator: AccountId, candidate: AccountId)
        ensures
            final(self)@ == (State {
                delegations: old(self)@.delegations.remove((delegator, candidate)),
                ..old(self)@
            }),
    {
        self.delegation_infos.remove(&(delegator, candidate));
    }

    /// Replaces the number of candidates that `delegator` backs.
    pub(crate) fn put_delegate_count(&mut self, delegator: AccountId, count: u32)
        ensures
            final(self)@ == (State {
                delegate_counts: old(self)@.delegate_counts.insert(delegator, count),
                ..old(self)@
            }),
    {
        self.delegate_count_map.insert(delegator, count);
    }

    /// Replaces the unclaimed reward of `who`.
    pub(crate) fn put_reward(&mut self, who: AccountId, amount: Balance)
        ensures
            final(self)@ == (State {
                rewards: old(self)@.rewards.insert(who, amount),
                ..old(self)@
            }),
    {
        self.rewards.insert(who, amount);
    }

    /// Removes the unclaimed reward of `who`.
    pub(crate) fn drop_reward(&mut self, who: AccountId)
        ensures
            final(self)@ == (State { rewards: old(self)@.rewards.remove(who), ..old(self)@ }),
    {
        self.rewards.remove(&who);
    }

    /// Removes the list of delegators of `candidate`.
    pub(crate) fn drop_delegators(&mut self, candidate: AccountId)
        ensures
            final(self)@ == (State {
                delegators: old(self)@.delegators.remove(candidate),
                ..old(self)@
            }),
    {
        self.candidate_delegators.remove(&candidate);
    }
}

} // verus!
