//! The first state of a ledger: a set of candidates registered at once, and the first
//! validator set selected from them.
use crate::config::Config;
use crate::epoch_transition::{accounts_of, ReportNewValidatorSet};
use crate::models::CandidateSet;
use crate::pallet::Pallet;
use crate::state::{lemma_stakes_untouched, State};
use crate::types::{AccountId, Balance, Error, Receipt, ReceiptView};
use vstd::prelude::*;

verus! {

/// The candidates with which a ledger starts.
#[derive(Clone, Debug, PartialEq, Eq)]
pub struct GenesisConfig {
    /// Each candidate with its bond, in the order of registration.
    pub genesis_candidates: CandidateSet,
}

impl Default for GenesisConfig {
    /// A start without candidates.
    fn default() -> (genesis: Self)
        ensures
            genesis.genesis_candidates@ == Seq::<(AccountId, Balance)>::empty(),
    {
        GenesisConfig { genesis_candidates: Vec::new() }
    }
}

impl State {
    /// The ledger after registering `candidates` one after the other, with what the
    /// registrations return put together; or the error of the first registration that is
    /// refused.
    pub open spec fn registered_all(self, candidates: Seq<(AccountId, Balance)>) -> Result<
        (State, ReceiptView),
        Error,
    >
        decreases candidates.len(),
    {
        if candidates.len() == 0 {
            Ok((self, ReceiptView::empty()))
        } else {
            let (who, bond) = candidates.last();
            match self.registered_all(candidates.drop_last()) {
                Err(e) => Err(e),
                Ok((before, receipt)) => match before.register_outcome(who, bond) {
                    Err(e) => Err(e),
                    Ok(next) => Ok((before.register_state(who, bond), receipt.followed_by(next))),
                },
            }
        }
    }

    /// Whether this ledger starts the first epoch from `registered`: the validator set is
    /// selected from it, its stakes are frozen in the first snapshot, and nothing else
    /// differs.
    pub open spec fn starts_from(self, registered: State) -> bool {
        &&& registered.is_selection(self.validators)
        &&& self == (State {
            validators: self.validators,
            snapshot: Some(registered.snapshot_of(self.validators)),
            ..registered
        })
    }
}

/// A registration that is refused among the first candidates makes the whole list fail with
/// the same error.
proof fn lemma_refused_early(s: State, candidates: Seq<(AccountId, Balance)>, n: int)
    requires
        0 <= n <= candidates.len(),
        s.registered_all(candidates.take(n)) is Err,
    ensures
        s.registered_all(candidates) == s.registered_all(candidates.take(n)),
    decreases candidates.len() - n,
{
    if n == candidates.len() {
        assert(candidates.take(n) == candidates);
    } else {
        assert(candidates.take(n + 1).drop_last() == candidates.take(n));
        lemma_refused_early(s, candidates, n + 1);
    }
}

/// A ledger that starts the first epoch from a well-formed one is well formed.
pub proof fn lemma_starts_from_wf(registered: State, s: State)
    requires
        registered.wf(),
        s.starts_from(registered),
    ensures
        s.wf(),
{
    lemma_stakes_untouched(registered, s);
}

impl Pallet {
    /// Registers `candidates` one after the other and returns what the registrations ask
    /// for, or the error of the first one that is refused. Those before it stay registered.
    pub(crate) fn register_all(&mut self, candidates: &CandidateSet) -> (r: Result<Receipt, Error>)
        requires
            old(self).wf(),
        ensures
            final(self).wf(),
            final(self)@ == (State { candidates: final(self)@.candidates, ..old(self)@ }),
            match old(self)@.registered_all(candidates@) {
                Ok((registered, asked)) => r matches Ok(receipt) && receipt@ == asked
                    && final(self)@ == registered,
                Err(e) => r == Err::<Receipt, Error>(e),
            },
    {
        let mut receipt = Receipt::new();
        let ghost start = old(self)@;
        let ghost listed = candidates@;
        let mut i: usize = 0;
        while i < candidates.len()
            invariant
                i <= candidates.len(),
                listed == candidates@,
                start == old(self)@,
                self.wf(),
                self@ == (State { candidates: self@.candidates, ..start }),
                start.registered_all(listed.take(i as int)) == Ok::<(State, ReceiptView), Error>(
                    (self@, receipt@),
                ),
            decreases candidates.len() - i,
        {
            let (who, bond) = candidates[i];
            assert(listed.take(i + 1).drop_last() == listed.take(i as int));
            match self.register_as_candidate(who, bond) {
                Ok(next) => {
                    receipt.append(next);
                },
                Err(e) => {
                    proof {
                        lemma_refused_early(start, listed, i + 1);
                    }
                    return Err(e);
                },
            }
            i = i + 1;
        }
        assert(listed.take(candidates.len() as int) == listed);
        Ok(receipt)
    }
}

impl GenesisConfig {
    /// Builds the ledger of the first epoch under `config`.
    ///
    /// The candidates are registered in their order, as `register_as_candidate` does it.
    /// From them the first validator set is selected and installed, its stakes are frozen in
    /// the first snapshot, and its accounts are reported through `R`. The epoch index is 0.
    /// The receipt holds what the registrations ask for, and the accounts that were reported.
    ///
    /// Refused with `InvalidConfiguration` when the configuration is not usable, else with
    /// the error of the first registration that is refused: `CandidateAlreadyExist` for an
    /// account that stands in the list twice.
    pub fn build<R: ReportNewValidatorSet<AccountId>>(&self, config: Config) -> (r: Result<
        (Pallet, Receipt),
        Error,
    >)
        ensures
            match r {
                Ok((pallet, receipt)) => {
                    &&& config.valid()
                    &&& pallet.wf()
                    &&& State::empty(config).registered_all(self.genesis_candidates@) matches Ok(
                        (registered, asked),
                    )
                    &&& receipt@ == (ReceiptView {
                        reported: Some(accounts_of(pallet@.validators)),
                        ..asked
                    })
                    &&& pallet@.starts_from(registered)
                },
                Err(e) => if config.valid() {
                    State::empty(config).registered_all(self.genesis_candidates@) == Err::<
                        (State, ReceiptView),
                        Error,
                    >(e)
                } else {
                    e == Error::InvalidConfiguration
                },
            },
    {
        let mut pallet = Pallet::new(config)?;
        let mut receipt = pallet.register_all(&self.genesis_candidates)?;
        let ghost registered = pallet@;
        let validator_set = pallet.select_validator_set();
        let snapshot = pallet.capture_epoch_snapshot(&validator_set);
        let new_set = Pallet::validator_accounts(&validator_set);
        pallet.last_epoch_snapshot = Some(snapshot);
        pallet.current_validators = validator_set;
        receipt.reported = Some(Pallet::copy_of(&new_set));
        Pallet::report_new_validators::<R>(new_set);
        proof {
            lemma_starts_from_wf(registered, pallet@);
        }
        Ok((pallet, receipt))
    }
}

} // verus!
