//! The ledger as a mathematical value, and what it means for it to be well formed.
use crate::config::Config;
use crate::delegators::strictly_increasing;
use crate::models::{Candidate, Delegation, EpochView};
use crate::sums::total;
use crate::types::{AccountId, Balance};
use vstd::prelude::*;

verus! {

/// Everything that the ledger records.
#[verifier::ext_equal]
pub struct State {
    /// The limits of the deployment.
    pub config: Config,
    /// The candidate pool.
    pub candidates: Map<AccountId, Candidate>,
    /// For each delegator, the number of candidates that it backs.
    pub delegate_counts: Map<AccountId, u32>,
    /// The delegation of each `(delegator, candidate)` pair.
    pub delegations: Map<(AccountId, AccountId), Delegation>,
    /// For each candidate, its delegators in increasing order.
    pub delegators: Map<AccountId, Seq<AccountId>>,
    /// The number of epochs that have ended.
    pub epoch_index: u32,
    /// The active validator set as `(account, bond, total stake)`, best first.
    pub validators: Seq<(AccountId, Balance, Balance)>,
    /// The stakes frozen at the last epoch boundary.
    pub snapshot: Option<EpochView>,
    /// Accrued rewards that were not claimed yet.
    pub rewards: Map<AccountId, Balance>,
}

impl State {
    /// The ledger in which nothing has happened yet.
    pub open spec fn empty(config: Config) -> State {
        State {
            config,
            candidates: Map::empty(),
            delegate_counts: Map::empty(),
            delegations: Map::empty(),
            delegators: Map::empty(),
            epoch_index: 0,
            validators: Seq::empty(),
            snapshot: None,
            rewards: Map::empty(),
        }
    }

    /// The number of candidates that `who` backs; zero where nothing is recorded.
    pub open spec fn delegate_count(self, who: AccountId) -> u32 {
        if self.delegate_counts.contains_key(who) {
            self.delegate_counts[who]
        } else {
            0
        }
    }

    /// The delegators of `candidate`; none where nothing is recorded.
    pub open spec fn delegators_of(self, candidate: AccountId) -> Seq<AccountId> {
        if self.delegators.contains_key(candidate) {
            self.delegators[candidate]
        } else {
            Seq::empty()
        }
    }

    /// The unclaimed reward of `who`; zero where nothing is recorded.
    pub open spec fn reward_of(self, who: AccountId) -> Balance {
        if self.rewards.contains_key(who) {
            self.rewards[who]
        } else {
            0
        }
    }

    /// The delegations to `candidate`, each with its amount.
    pub open spec fn delegations_to(self, candidate: AccountId) -> Map<
        (AccountId, AccountId),
        nat,
    > {
        Map::new(
            |pair: (AccountId, AccountId)|
                self.delegations.contains_key(pair) && pair.1 == candidate,
            |pair: (AccountId, AccountId)| self.delegations[pair].amount as nat,
        )
    }

    /// What all delegators together have behind `candidate`.
    pub open spec fn delegated_to(self, candidate: AccountId) -> nat {
        total(self.delegations_to(candidate))
    }

    /// The candidates that `delegator` backs.
    pub open spec fn backed_by(self, delegator: AccountId) -> Set<AccountId> {
        Set::new(|candidate: AccountId| self.delegations.contains_key((delegator, candidate)))
    }

    /// No collection is larger than the configuration allows.
    pub open spec fn within_bounds(self) -> bool {
        &&& self.candidates.dom().finite()
        &&& self.candidates.len() <= self.config.max_candidates
        &&& forall|c: AccountId| #[trigger]
            self.delegators.contains_key(c) ==> self.delegators[c].len()
                <= self.config.max_candidate_delegators
        &&& forall|d: AccountId| #[trigger]
            self.delegate_counts.contains_key(d) ==> self.delegate_counts[d]
                <= self.config.max_delegate_count
        &&& self.validators.len() <= self.config.max_validators
    }

    /// Every delegation is large enough, goes to a candidate of the pool, and is listed
    /// among that candidate's delegators.
    pub open spec fn delegations_accounted(self) -> bool {
        &&& self.delegations.dom().finite()
        &&& forall|d: AccountId, c: AccountId| #[trigger]
            self.delegations.contains_key((d, c)) ==> {
                &&& self.candidates.contains_key(c)
                &&& self.delegators_of(c).contains(d)
                &&& self.delegations[(d, c)].amount > 0
                &&& self.delegations[(d, c)].amount >= self.config.min_delegate_amount
            }
    }

    /// Every bond is large enough.
    pub open spec fn bonds_sufficient(self) -> bool {
        forall|c: AccountId| #[trigger]
            self.candidates.contains_key(c) ==> self.candidates[c].bond > 0
                && self.candidates[c].bond >= self.config.min_candidate_bond
    }

    /// Every list of delegators is in strictly increasing order.
    pub open spec fn delegators_ordered(self) -> bool {
        forall|c: AccountId| #[trigger]
            self.delegators.contains_key(c) ==> strictly_increasing(self.delegators[c])
    }

    /// The delegated sum of every candidate is the sum of the delegations to it.
    pub open spec fn stakes_consistent(self) -> bool {
        forall|c: AccountId| #[trigger]
            self.candidates.contains_key(c) ==> self.candidates[c].sum_delegation
                == self.delegated_to(c)
    }

    /// The count of every delegator is the number of candidates that it backs.
    pub open spec fn counts_exact(self) -> bool {
        forall|d: AccountId|
            (#[trigger] self.backed_by(d)).finite() && self.delegate_count(d) == self.backed_by(
                d,
            ).len()
    }

    /// The ledger is well formed. Every operation keeps it so.
    pub open spec fn wf(self) -> bool {
        &&& self.config.valid()
        &&& self.within_bounds()
        &&& self.delegators_ordered()
        &&& self.delegations_accounted()
        &&& self.bonds_sufficient()
        &&& self.stakes_consistent()
        &&& self.counts_exact()
    }
}

/// The delegations to one candidate are finitely many.
pub proof fn lemma_delegations_to_finite(s: State, candidate: AccountId)
    requires
        s.delegations.dom().finite(),
    ensures
        s.delegations_to(candidate).dom().finite(),
{
    vstd::set_lib::lemma_set_subset_finite(s.delegations.dom(), s.delegations_to(candidate).dom());
}

/// The empty ledger is well formed.
pub proof fn lemma_empty_wf(config: Config)
    requires
        config.valid(),
    ensures
        State::empty(config).wf(),
{
    let s = State::empty(config);
    assert forall|d: AccountId|
        (#[trigger] s.backed_by(d)).finite() && s.delegate_count(d) == s.backed_by(d).len() by {
        assert(s.backed_by(d) =~= Set::empty());
    }
}

/// A change that touches neither the delegations, nor the counts of the delegators, nor the
/// delegated sum of a candidate keeps sums and counts right.
pub proof fn lemma_stakes_untouched(s: State, t: State)
    requires
        s.stakes_consistent(),
        s.counts_exact(),
        t.delegations == s.delegations,
        t.delegate_counts == s.delegate_counts,
        forall|c: AccountId| #[trigger]
            t.candidates.contains_key(c) ==> s.candidates.contains_key(c)
                && t.candidates[c].sum_delegation == s.candidates[c].sum_delegation,
    ensures
        t.stakes_consistent(),
        t.counts_exact(),
{
    assert forall|d: AccountId|
        (#[trigger] t.backed_by(d)).finite() && t.delegate_count(d) == t.backed_by(d).len() by {
        assert(s.backed_by(d).finite());
    }
}

} // verus!
