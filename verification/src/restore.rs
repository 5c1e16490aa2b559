//! Rebuilding a ledger from what was stored of it.
use crate::config::Config;
use crate::models::{CandidateSet, Epoch, EpochView};
use crate::pallet::Pallet;
use crate::selection::Entry;
use crate::state::State;
use crate::types::{AccountId, Balance, Error, TopCandidateVec};
use vstd::prelude::*;

verus! {

/// The rewards that `entries` record. Where an account stands in them more than once, its
/// last entry counts.
pub open spec fn rewards_from(entries: Seq<(AccountId, Balance)>) -> Map<AccountId, Balance>
    decreases entries.len(),
{
    if entries.len() == 0 {
        Map::empty()
    } else {
        rewards_from(entries.drop_last()).insert(entries.last().0, entries.last().1)
    }
}

impl State {
    /// The ledger after the delegations `(delegator, candidate, amount)` were made one after
    /// the other, or the error of the first one that is refused.
    pub open spec fn delegated_all(
        self,
        delegations: Seq<(AccountId, AccountId, Balance)>,
    ) -> Result<State, Error>
        decreases delegations.len(),
    {
        if delegations.len() == 0 {
            Ok(self)
        } else {
            let (delegator, candidate, amount) = delegations.last();
            match self.delegated_all(delegations.drop_last()) {
                Err(e) => Err(e),
                Ok(before) => match before.delegate_error(delegator, candidate, amount) {
                    Some(e) => Err(e),
                    None => Ok(before.delegate_state(delegator, candidate, amount)),
                },
            }
        }
    }

    /// The ledger that the stored parts give. Candidates and delegations are registered and
    /// made anew, in their order, so that what the ledger derives from them is right
    /// whatever was stored; the rest is taken as it is.
    pub open spec fn restored(
        config: Config,
        candidates: Seq<(AccountId, Balance)>,
        delegations: Seq<(AccountId, AccountId, Balance)>,
        rewards: Seq<(AccountId, Balance)>,
        epoch_index: u32,
        validators: Seq<Entry>,
        snapshot: Option<EpochView>,
    ) -> Result<State, Error> {
        if !config.valid() {
            Err(Error::InvalidConfiguration)
        } else {
            match State::empty(config).registered_all(candidates) {
                Err(e) => Err(e),
                Ok((registered, _)) => match registered.delegated_all(delegations) {
                    Err(e) => Err(e),
                    Ok(delegated) => if validators.len() > config.max_validators {
                        Err(Error::TooManyValidators)
                    } else {
                        Ok(
                            State {
                                rewards: rewards_from(rewards),
                                epoch_index,
                                validators,
                                snapshot,
                                ..delegated
                            },
                        )
                    },
                },
            }
        }
    }
}

/// A delegation that is refused among the first ones makes the whole list fail with the same
/// error.
proof fn lemma_refused_early(s: State, delegations: Seq<(AccountId, AccountId, Balance)>, n: int)
    requires
        0 <= n <= delegations.len(),
        s.delegated_all(delegations.take(n)) is Err,
    ensures
        s.delegated_all(delegations) == s.delegated_all(delegations.take(n)),
    decreases delegations.len() - n,
{
    if n == delegations.len() {
        assert(delegations.take(n) == delegations);
    } else {
        assert(delegations.take(n + 1).drop_last() == delegations.take(n));
        lemma_refused_early(s, delegations, n + 1);
    }
}

/// The view of a snapshot that may be missing.
pub open spec fn snapshot_view(snapshot: Option<Epoch>) -> Option<EpochView> {
    match snapshot {
        Some(epoch) => Some(epoch@),
        None => None,
    }
}

impl Pallet {
    /// Rebuilds a ledger under `config` from stored parts: the candidates with their bonds,
    /// the delegations as `(delegator, candidate, amount)`, the unclaimed rewards, the epoch
    /// index, the active validator set and the last snapshot.
    ///
    /// Candidates are registered and delegations made anew, in their order, as
    /// `register_as_candidate` and `delegate` do it, so the ledger is well formed whatever
    /// was stored. Refused with `InvalidConfiguration` when the configuration is not
    /// usable, with the error of the first registration or delegation that is refused, and
    /// with `TooManyValidators` when the validator set is larger than the configuration
    /// allows.
    pub fn restore(
        config: Config,
        candidates: &CandidateSet,
        delegations: &Vec<(AccountId, AccountId, Balance)>,
        rewards: &Vec<(AccountId, Balance)>,
        epoch_index: u32,
        validators: TopCandidateVec,
        snapshot: Option<Epoch>,
    ) -> (r: Result<Pallet, Error>)
        ensures
            match r {
                Ok(pallet) => pallet.wf() && State::restored(
                    config,
                    candidates@,
                    delegations@,
                    rewards@,
                    epoch_index,
                    validators@,
                    snapshot_view(snapshot),
                ) == Ok::<State, Error>(pallet@),
                Err(e) => State::restored(
                    config,
                    candidates@,
                    delegations@,
                    rewards@,
                    epoch_index,
                    validators@,
                    snapshot_view(snapshot),
                ) == Err::<State, Error>(e),
            },
    {
        let mut pallet = Pallet::new(config)?;
        let asked = pallet.register_all(candidates)?;
        let ghost registered = pallet@;
        let ghost listed = delegations@;
        let mut i: usize = 0;
        while i < delegations.len()
            invariant
                i <= delegations.len(),
                listed == delegations@,
                config.valid(),
                State::empty(config).registered_all(candidates@) == Ok::<
                    (State, crate::types::ReceiptView),
                    Error,
                >((registered, asked@)),
                pallet.wf(),
                pallet@.config == config,
                pallet@.rewards == Map::<AccountId, Balance>::empty(),
                registered.delegated_all(listed.take(i as int)) == Ok::<State, Error>(pallet@),
            decreases delegations.len() - i,
        {
            let (delegator, candidate, amount) = delegations[i];
            assert(listed.take(i + 1).drop_last() == listed.take(i as int));
            match pallet.delegate(delegator, candidate, amount) {
                Ok(_) => {},
                Err(e) => {
                    proof {
                        lemma_refused_early(registered, listed, i + 1);
                    }
                    return Err(e);
                },
            }
            i = i + 1;
        }
        assert(listed.take(delegations.len() as int) == listed);
        if validators.len() > config.max_validators as usize {
            return Err(Error::TooManyValidators);
        }
        let ghost delegated = pallet@;
        let ghost recorded = rewards@;
        let mut k: usize = 0;
        while k < rewards.len()
            invariant
                k <= rewards.len(),
                recorded == rewards@,
                delegated.wf(),
                pallet@ == (State { rewards: pallet@.rewards, ..delegated }),
                delegated.rewards == Map::<AccountId, Balance>::empty(),
                pallet@.rewards == rewards_from(recorded.take(k as int)),
            decreases rewards.len() - k,
        {
            let (who, amount) = rewards[k];
            assert(recorded.take(k + 1).drop_last() == recorded.take(k as int));
            pallet.put_reward(who, amount);
            k = k + 1;
        }
        assert(recorded.take(rewards.len() as int) == recorded);
        pallet.epoch_index = epoch_index;
        pallet.current_validators = validators;
        pallet.last_epoch_snapshot = snapshot;
        proof {
            let after = State {
                rewards: rewards_from(recorded),
                epoch_index,
                validators: validators@,
                snapshot: snapshot_view(snapshot),
                ..delegated
            };
            crate::state::lemma_stakes_untouched(delegated, after);
        }
        Ok(pallet)
    }
}

} // verus!
