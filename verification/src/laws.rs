//! What holds of the ledger whatever is done with it.
//!
//! `step` says what one call makes of a ledger, in the words of the operations' own
//! contracts, and a run is any sequence of calls. The laws: every call keeps the ledger well
//! formed and within its bounds, a refused call changes nothing, a call has one result only,
//! and the epoch index never falls and moves by one at a boundary.
use crate::epoch_transition::lemma_initialize_wf;
use crate::preservation::{
    lemma_claim_wf, lemma_delegate_wf, lemma_register_wf, lemma_undelegate_wf,
    lemma_unregister_wf,
};
use crate::selection::lemma_selection_unique;
use crate::staking::Outcome;
use crate::state::State;
use crate::types::{AccountId, Balance, BlockNumber};
use vstd::prelude::*;

verus! {

/// One call of the ledger.
pub enum Call {
    /// `register_as_candidate`
    Register { who: AccountId, bond: Balance },
    /// `delegate`
    Delegate { delegator: AccountId, candidate: AccountId, amount: Balance },
    /// `undelegate`
    Undelegate { delegator: AccountId, candidate: AccountId, amount: Balance },
    /// `unregister_as_candidate`
    Unregister { candidate: AccountId },
    /// `claim_reward`
    ClaimReward { who: AccountId },
    /// `on_initialize`
    Initialize { block: BlockNumber, author: Option<AccountId> },
}

/// Whether `call` on the ledger `before` can return `outcome` and leave the ledger `after`.
pub open spec fn step(before: State, call: Call, outcome: Outcome, after: State) -> bool {
    match call {
        Call::Register { who, bond } => {
            &&& outcome == before.register_outcome(who, bond)
            &&& after == before.register_state(who, bond)
        },
        Call::Delegate { delegator, candidate, amount } => {
            &&& outcome == before.delegate_outcome(delegator, candidate, amount)
            &&& after == before.delegate_state(delegator, candidate, amount)
        },
        Call::Undelegate { delegator, candidate, amount } => {
            &&& outcome == before.undelegate_outcome(delegator, candidate, amount)
            &&& after == before.undelegate_state(delegator, candidate, amount)
        },
        Call::Unregister { candidate } => {
            &&& outcome == before.unregister_outcome(candidate)
            &&& after == before.unregister_state(candidate)
        },
        Call::ClaimReward { who } => {
            &&& outcome == before.claim_outcome(who)
            &&& after == before.claim_state(who)
        },
        Call::Initialize { block, author } => {
            &&& outcome matches Ok(receipt)
            &&& before.initialized(block, author, after, receipt)
        },
    }
}

/// Whether `states` are the ledgers that `calls` lead through, from `states[0]` on, with
/// `outcomes` returned.
pub open spec fn is_run(states: Seq<State>, calls: Seq<Call>, outcomes: Seq<Outcome>) -> bool {
    &&& states.len() == calls.len() + 1
    &&& outcomes.len() == calls.len()
    &&& forall|i: int|
        0 <= i < calls.len() ==> step(states[i], #[trigger] calls[i], outcomes[i], states[i + 1])
}

/// Every call keeps the ledger well formed.
pub proof fn lemma_step_keeps_wf(before: State, call: Call, outcome: Outcome, after: State)
    requires
        before.wf(),
        step(before, call, outcome, after),
    ensures
        after.wf(),
{
    match call {
        Call::Register { who, bond } => lemma_register_wf(before, who, bond),
        Call::Delegate { delegator, candidate, amount } => lemma_delegate_wf(
            before,
            delegator,
            candidate,
            amount,
        ),
        Call::Undelegate { delegator, candidate, amount } => lemma_undelegate_wf(
            before,
            delegator,
            candidate,
            amount,
        ),
        Call::Unregister { candidate } => lemma_unregister_wf(before, candidate),
        Call::ClaimReward { who } => lemma_claim_wf(before, who),
        Call::Initialize { block, author } => lemma_initialize_wf(
            before,
            block,
            author,
            after,
            outcome->Ok_0,
        ),
    }
}

/// In a well-formed ledger no collection is larger than the configuration allows: the
/// candidate pool, the delegators of any candidate, the candidates that any delegator backs,
/// and the active validator set.
pub proof fn lemma_bounded(s: State)
    requires
        s.wf(),
    ensures
        s.candidates.len() <= s.config.max_candidates,
        forall|c: AccountId| #[trigger]
            s.delegators_of(c).len() <= s.config.max_candidate_delegators,
        forall|d: AccountId|
            (#[trigger] s.backed_by(d)).len() == s.delegate_count(d) && s.delegate_count(d)
                <= s.config.max_delegate_count,
        s.validators.len() <= s.config.max_validators,
{
}

/// In a well-formed ledger the delegated sum of every candidate is what its delegators have
/// behind it, and every one of them is on its list.
pub proof fn lemma_stakes_add_up(s: State, candidate: AccountId)
    requires
        s.wf(),
        s.candidates.contains_key(candidate),
    ensures
        s.candidates[candidate].sum_delegation == s.delegated_to(candidate),
        forall|d: AccountId| #[trigger]
            s.delegations.contains_key((d, candidate)) ==> s.delegators_of(candidate).contains(d),
{
}

/// A call never changes the bond of a candidate that stays in the pool.
pub proof fn lemma_bond_fixed(
    before: State,
    call: Call,
    outcome: Outcome,
    after: State,
    candidate: AccountId,
)
    requires
        step(before, call, outcome, after),
        before.candidates.contains_key(candidate),
        after.candidates.contains_key(candidate),
    ensures
        after.candidates[candidate].bond == before.candidates[candidate].bond,
{
}

/// A refused call changes nothing.
pub proof fn lemma_refused_changes_nothing(
    before: State,
    call: Call,
    outcome: Outcome,
    after: State,
)
    requires
        step(before, call, outcome, after),
        outcome is Err,
    ensures
        after == before,
{
}

/// A call has one result: what it returns and what it leaves are functions of the ledger
/// and the call.
pub proof fn lemma_step_deterministic(
    before: State,
    call: Call,
    outcome: Outcome,
    after: State,
    other_outcome: Outcome,
    other_after: State,
)
    requires
        step(before, call, outcome, after),
        step(before, call, other_outcome, other_after),
    ensures
        outcome == other_outcome,
        after == other_after,
{
    match call {
        Call::Initialize { block, author } => {
            let credited = before.rewarded(author);
            if before.is_boundary(block) {
                lemma_selection_unique(credited, after.validators, other_after.validators);
            }
        },
        _ => {},
    }
}

/// The epoch index changes at an epoch boundary only. There it grows by one, unless it has
/// reached the largest index, where it stays. So it never falls.
pub proof fn lemma_epoch_index_step(before: State, call: Call, outcome: Outcome, after: State)
    requires
        step(before, call, outcome, after),
    ensures
        (call matches Call::Initialize { block, .. } && before.is_boundary(block))
            ==> after.epoch_index == before.next_epoch_index(),
        !(call matches Call::Initialize { block, .. } && before.is_boundary(block))
            ==> after.epoch_index == before.epoch_index,
        before.epoch_index < u32::MAX ==> before.next_epoch_index() == before.epoch_index + 1,
        before.epoch_index <= after.epoch_index,
{
}

/// Every ledger of a run that starts well formed is well formed, and so within its bounds.
pub proof fn lemma_run_keeps_wf(states: Seq<State>, calls: Seq<Call>, outcomes: Seq<Outcome>)
    requires
        is_run(states, calls, outcomes),
        states[0].wf(),
    ensures
        forall|i: int| 0 <= i < states.len() ==> (#[trigger] states[i]).wf(),
    decreases calls.len(),
{
    if calls.len() > 0 {
        let n = calls.len() as int;
        let shorter = states.drop_last();
        lemma_run_keeps_wf(shorter, calls.drop_last(), outcomes.drop_last());
        assert(shorter[n - 1].wf());
        lemma_step_keeps_wf(states[n - 1], calls[n - 1], outcomes[n - 1], states[n]);
        assert forall|i: int| 0 <= i < states.len() implies (#[trigger] states[i]).wf() by {
            if i < n {
                assert(shorter[i].wf());
            }
        }
    }
}

/// Over any run the epoch index never falls.
pub proof fn lemma_run_epoch_monotonic(
    states: Seq<State>,
    calls: Seq<Call>,
    outcomes: Seq<Outcome>,
    i: int,
    j: int,
)
    requires
        is_run(states, calls, outcomes),
        0 <= i <= j < states.len(),
    ensures
        states[i].epoch_index <= states[j].epoch_index,
    decreases j - i,
{
    if i < j {
        lemma_run_epoch_monotonic(states, calls, outcomes, i, j - 1);
        lemma_epoch_index_step(states[j - 1], calls[j - 1], outcomes[j - 1], states[j]);
    }
}

} // verus!
