//! Conservation: the funds that the ledger has asked the host to hold are always the bonds
//! and delegations that it records, in total and for every single account.
use crate::config::Config;
use crate::laws::{is_run, lemma_run_keeps_wf, step, Call};
use crate::models::{Candidate, Delegation};
use crate::staking::Outcome;
use crate::state::{lemma_empty_wf, State};
use crate::sums::{lemma_total_insert, lemma_total_remove, total};
use crate::types::{held_change, held_change_of, AccountId, Balance, BalanceCommand, HoldReason};
use vstd::prelude::*;

verus! {

/// By how much carrying out what `outcome` asks for changes the funds on hold.
pub open spec fn held_by(outcome: Outcome) -> int {
    match outcome {
        Ok(receipt) => held_change(receipt.commands),
        Err(_) => 0,
    }
}

/// The bonds of the candidates.
pub open spec fn bonds_of(candidates: Map<AccountId, Candidate>) -> Map<AccountId, nat> {
    candidates.map_values(|c: Candidate| c.bond as nat)
}

/// The amounts of the delegations.
pub open spec fn amounts_of(delegations: Map<(AccountId, AccountId), Delegation>) -> Map<
    (AccountId, AccountId),
    nat,
> {
    delegations.map_values(|d: Delegation| d.amount as nat)
}

impl State {
    /// What the ledger records as locked: all bonds and all delegated amounts.
    pub open spec fn locked(self) -> nat {
        total(bonds_of(self.candidates)) + total(amounts_of(self.delegations))
    }
}

/// By how much carrying out what all of `outcomes` ask for changes the funds on hold.
pub open spec fn held_by_all(outcomes: Seq<Outcome>) -> int
    decreases outcomes.len(),
{
    if outcomes.len() == 0 {
        0
    } else {
        held_by_all(outcomes.drop_last()) + held_by(outcomes.last())
    }
}

/// The change of a sequence of commands with one more command.
pub proof fn lemma_held_change_push(commands: Seq<BalanceCommand>, next: BalanceCommand)
    ensures
        held_change(commands.push(next)) == held_change(commands) + next.held_change(),
{
    assert(commands.push(next).drop_last() =~= commands);
}

/// The change of one command alone.
pub proof fn lemma_held_change_single(command: BalanceCommand)
    ensures
        held_change(seq![command]) == command.held_change(),
{
    lemma_held_change_push(Seq::empty(), command);
}

/// The bonds and the amounts are recorded for the keys of the ledger's own maps.
proof fn lemma_same_keys(
    candidates: Map<AccountId, Candidate>,
    delegations: Map<(AccountId, AccountId), Delegation>,
)
    ensures
        bonds_of(candidates).dom() == candidates.dom(),
        amounts_of(delegations).dom() == delegations.dom(),
{
}

/// Giving the first `n` listed delegators of `candidate` their delegations back releases
/// what their records hold, and no more.
proof fn lemma_releases_conserve(s: State, candidate: AccountId, n: int)
    requires
        s.wf(),
        s.delegators_on_record(candidate),
        0 <= n <= s.delegators_of(candidate).len(),
    ensures
        s.delegations_released(candidate, n).dom().finite(),
        total(amounts_of(s.delegations_released(candidate, n))) == total(
            amounts_of(s.delegations),
        ) + held_change(s.delegator_releases(candidate).take(n)),
    decreases n,
{
    let list = s.delegators_of(candidate);
    let releases = s.delegator_releases(candidate);
    let now = s.delegations_released(candidate, n);
    vstd::set_lib::lemma_set_subset_finite(s.delegations.dom(), now.dom());
    lemma_same_keys(s.candidates, now);
    if n == 0 {
        assert(now =~= s.delegations);
    } else {
        lemma_releases_conserve(s, candidate, n - 1);
        let earlier = s.delegations_released(candidate, n - 1);
        let pair = (list[n - 1], candidate);
        assert forall|who: AccountId|
            list.take(n).contains(who) <==> (list.take(n - 1).contains(who) || who == list[n
                - 1]) by {
            crate::delegators::lemma_take_next(list, n - 1, who);
        }
        assert(amounts_of(now) =~= amounts_of(earlier).remove(pair));
        lemma_total_remove(amounts_of(earlier), pair);
        assert(releases.take(n) =~= releases.take(n - 1).push(releases[n - 1]));
        lemma_held_change_push(releases.take(n - 1), releases[n - 1]);
    }
}

/// Every call changes what the ledger records as locked by exactly what it asks the host to
/// hold or to release.
pub proof fn lemma_step_conserves(before: State, call: Call, outcome: Outcome, after: State)
    requires
        before.wf(),
        step(before, call, outcome, after),
    ensures
        after.locked() == before.locked() + held_by(outcome),
{
    let bonds = bonds_of(before.candidates);
    let amounts = amounts_of(before.delegations);
    lemma_same_keys(before.candidates, before.delegations);
    match call {
        Call::Register { who, bond } => {
            if outcome is Ok {
                lemma_held_change_single(outcome->Ok_0.commands[0]);
                assert(bonds_of(after.candidates) =~= bonds.insert(who, bond as nat));
                lemma_total_insert(bonds, who, bond as nat);
            }
        },
        Call::Delegate { delegator, candidate, amount } => {
            if outcome is Ok {
                lemma_held_change_single(outcome->Ok_0.commands[0]);
                assert(bonds_of(after.candidates) =~= bonds);
                let pair = (delegator, candidate);
                let delegated = before.delegated_after(delegator, candidate, amount);
                assert(amounts_of(after.delegations) =~= amounts.insert(pair, delegated as nat));
                lemma_total_insert(amounts, pair, delegated as nat);
            }
        },
        Call::Undelegate { delegator, candidate, amount } => {
            if outcome is Ok {
                lemma_held_change_single(outcome->Ok_0.commands[0]);
                assert(bonds_of(after.candidates) =~= bonds);
                let pair = (delegator, candidate);
                let current = before.delegations[pair].amount;
                if amount == current {
                    assert(amounts_of(after.delegations) =~= amounts.remove(pair));
                    lemma_total_remove(amounts, pair);
                } else {
                    let left = (current - amount) as nat;
                    assert(amounts_of(after.delegations) =~= amounts.insert(pair, left));
                    lemma_total_insert(amounts, pair, left);
                }
            }
        },
        Call::Unregister { candidate } => {
            if outcome is Ok {
                let n = before.delegators_of(candidate).len() as int;
                let releases = before.delegator_releases(candidate);
                lemma_releases_conserve(before, candidate, n);
                assert(releases.take(n) =~= releases);
                let release_bond = BalanceCommand::Release {
                    reason: crate::types::HoldReason::CandidateBondReserved,
                    who: candidate,
                    amount: before.candidates[candidate].bond,
                };
                lemma_held_change_push(releases, release_bond);
                let reward = before.reward_of(candidate);
                if reward > 0 {
                    lemma_held_change_push(
                        releases.push(release_bond),
                        BalanceCommand::Mint { who: candidate, amount: reward },
                    );
                }
                assert(bonds_of(after.candidates) =~= bonds.remove(candidate));
                lemma_total_remove(bonds, candidate);
            }
        },
        Call::ClaimReward { who } => {
            if outcome is Ok {
                lemma_held_change_single(outcome->Ok_0.commands[0]);
            }
        },
        Call::Initialize { block, author } => {},
    }
}

/// Conservation: over any run, what the ledger records as locked has changed by exactly what
/// it has asked the host to hold and to release on the way.
pub proof fn lemma_run_conserves(states: Seq<State>, calls: Seq<Call>, outcomes: Seq<Outcome>)
    requires
        is_run(states, calls, outcomes),
        states[0].wf(),
    ensures
        states.last().locked() == states[0].locked() + held_by_all(outcomes),
    decreases calls.len(),
{
    if calls.len() > 0 {
        let n = calls.len() as int;
        let shorter = states.drop_last();
        lemma_run_conserves(shorter, calls.drop_last(), outcomes.drop_last());
        lemma_run_keeps_wf(shorter, calls.drop_last(), outcomes.drop_last());
        lemma_step_conserves(states[n - 1], calls[n - 1], outcomes[n - 1], states[n]);
    }
}

/// A ledger that starts empty has nothing locked, so after any run it records as locked
/// exactly what it has asked the host to hold and not to release again.
pub proof fn lemma_conservation_from_empty(
    states: Seq<State>,
    calls: Seq<Call>,
    outcomes: Seq<Outcome>,
)
    requires
        is_run(states, calls, outcomes),
        states[0] == State::empty(states[0].config),
        states[0].config.valid(),
    ensures
        states.last().locked() == held_by_all(outcomes),
{
    assert(bonds_of(states[0].candidates) =~= Map::empty());
    assert(amounts_of(states[0].delegations) =~= Map::empty());
    lemma_empty_wf(states[0].config);
    lemma_run_conserves(states, calls, outcomes);
}

/// The change of two sequences of commands, one after the other.
pub proof fn lemma_held_change_concat(first: Seq<BalanceCommand>, second: Seq<BalanceCommand>)
    ensures
        held_change(first + second) == held_change(first) + held_change(second),
    decreases second.len(),
{
    if second.len() > 0 {
        lemma_held_change_concat(first, second.drop_last());
        assert((first + second).drop_last() =~= first + second.drop_last());
    }
}

/// Registering candidates one after the other keeps the ledger well formed and has exactly
/// their bonds held.
pub proof fn lemma_registered_all_conserves(s: State, candidates: Seq<(AccountId, Balance)>)
    requires
        s.wf(),
        s.registered_all(candidates) is Ok,
    ensures
        s.registered_all(candidates)->Ok_0.0.wf(),
        s.registered_all(candidates)->Ok_0.0.locked() == s.locked() + held_change(
            s.registered_all(candidates)->Ok_0.1.commands,
        ),
    decreases candidates.len(),
{
    if candidates.len() > 0 {
        let (who, bond) = candidates.last();
        lemma_registered_all_conserves(s, candidates.drop_last());
        let (before, asked) = s.registered_all(candidates.drop_last())->Ok_0;
        let outcome = before.register_outcome(who, bond);
        let after = before.register_state(who, bond);
        let call = Call::Register { who, bond };
        lemma_step_conserves(before, call, outcome, after);
        crate::laws::lemma_step_keeps_wf(before, call, outcome, after);
        lemma_held_change_concat(asked.commands, outcome->Ok_0.commands);
    }
}

/// A ledger built at the start has locked exactly the bonds that it has asked the host to
/// hold.
pub proof fn lemma_start_conserves(
    config: Config,
    candidates: Seq<(AccountId, Balance)>,
    started: State,
)
    requires
        config.valid(),
        State::empty(config).registered_all(candidates) is Ok,
        started.starts_from(State::empty(config).registered_all(candidates)->Ok_0.0),
    ensures
        started.locked() == held_change(
            State::empty(config).registered_all(candidates)->Ok_0.1.commands,
        ),
{
    let empty = State::empty(config);
    lemma_empty_wf(config);
    lemma_registered_all_conserves(empty, candidates);
    assert(bonds_of(empty.candidates) =~= Map::empty());
    assert(amounts_of(empty.delegations) =~= Map::empty());
}

/// By how much carrying out what `outcome` asks for changes what is held of `who` for
/// `reason`.
pub open spec fn held_by_of(outcome: Outcome, reason: HoldReason, who: AccountId) -> int {
    match outcome {
        Ok(receipt) => held_change_of(receipt.commands, reason, who),
        Err(_) => 0,
    }
}

/// By how much carrying out what all of `outcomes` ask for changes what is held of `who` for
/// `reason`.
pub open spec fn held_by_all_of(outcomes: Seq<Outcome>, reason: HoldReason, who: AccountId) -> int
    decreases outcomes.len(),
{
    if outcomes.len() == 0 {
        0
    } else {
        held_by_all_of(outcomes.drop_last(), reason, who) + held_by_of(
            outcomes.last(),
            reason,
            who,
        )
    }
}

impl State {
    /// The delegations of `delegator`, each with its amount.
    pub open spec fn delegations_by(self, delegator: AccountId) -> Map<
        (AccountId, AccountId),
        nat,
    > {
        Map::new(
            |pair: (AccountId, AccountId)|
                self.delegations.contains_key(pair) && pair.0 == delegator,
            |pair: (AccountId, AccountId)| self.delegations[pair].amount as nat,
        )
    }

    /// What the ledger records as locked of `who` for `reason`: its bond if it is a
    /// candidate, or all that it has delegated.
    pub open spec fn locked_of(self, reason: HoldReason, who: AccountId) -> nat {
        match reason {
            HoldReason::CandidateBondReserved => if self.candidates.contains_key(who) {
                self.candidates[who].bond as nat
            } else {
                0
            },
            HoldReason::DelegateAmountReserved => total(self.delegations_by(who)),
        }
    }
}

/// The change, for one account and reason, of a sequence of commands with one more command.
pub proof fn lemma_held_change_of_push(
    commands: Seq<BalanceCommand>,
    next: BalanceCommand,
    reason: HoldReason,
    who: AccountId,
)
    ensures
        held_change_of(commands.push(next), reason, who) == held_change_of(commands, reason, who)
            + next.held_change_of(reason, who),
{
    assert(commands.push(next).drop_last() =~= commands);
}

/// The change, for one account and reason, of one command alone.
pub proof fn lemma_held_change_of_single(
    command: BalanceCommand,
    reason: HoldReason,
    who: AccountId,
)
    ensures
        held_change_of(seq![command], reason, who) == command.held_change_of(reason, who),
{
    lemma_held_change_of_push(Seq::empty(), command, reason, who);
}

/// The delegations of one delegator are finitely many.
proof fn lemma_delegations_by_finite(s: State, delegator: AccountId)
    requires
        s.delegations.dom().finite(),
    ensures
        s.delegations_by(delegator).dom().finite(),
{
    vstd::set_lib::lemma_set_subset_finite(s.delegations.dom(), s.delegations_by(delegator).dom());
}

/// Of the releases that give the first `n` listed delegators of `candidate` their
/// delegations back, one goes to `who` if it is among them, over what it has behind the
/// candidate, and none if it is not.
proof fn lemma_releases_of(
    s: State,
    candidate: AccountId,
    n: int,
    reason: HoldReason,
    who: AccountId,
)
    requires
        s.wf(),
        0 <= n <= s.delegators_of(candidate).len(),
    ensures
        held_change_of(s.delegator_releases(candidate).take(n), reason, who) == if reason
            == HoldReason::DelegateAmountReserved && s.delegators_of(candidate).take(n).contains(
            who,
        ) {
            -(s.delegations[(who, candidate)].amount as int)
        } else {
            0
        },
    decreases n,
{
    let list = s.delegators_of(candidate);
    let releases = s.delegator_releases(candidate);
    if n > 0 {
        lemma_releases_of(s, candidate, n - 1, reason, who);
        assert(releases.take(n) =~= releases.take(n - 1).push(releases[n - 1]));
        lemma_held_change_of_push(releases.take(n - 1), releases[n - 1], reason, who);
        crate::delegators::lemma_take_next(list, n - 1, who);
    }
}

/// Every call changes what the ledger records as locked of any one account, for either
/// reason, by exactly what it asks the host to hold or to release of that account for that
/// reason.
pub proof fn lemma_step_conserves_each(
    before: State,
    call: Call,
    outcome: Outcome,
    after: State,
    reason: HoldReason,
    who: AccountId,
)
    requires
        before.wf(),
        step(before, call, outcome, after),
    ensures
        after.locked_of(reason, who) == before.locked_of(reason, who) + held_by_of(
            outcome,
            reason,
            who,
        ),
{
    let mine = before.delegations_by(who);
    lemma_delegations_by_finite(before, who);
    match call {
        Call::Register { who: candidate, bond } => {
            if outcome is Ok {
                lemma_held_change_of_single(outcome->Ok_0.commands[0], reason, who);
            }
        },
        Call::Delegate { delegator, candidate, amount } => {
            if outcome is Ok {
                lemma_held_change_of_single(outcome->Ok_0.commands[0], reason, who);
                let pair = (delegator, candidate);
                if who == delegator {
                    let delegated = before.delegated_after(delegator, candidate, amount) as nat;
                    assert(after.delegations_by(who) =~= mine.insert(pair, delegated));
                    lemma_total_insert(mine, pair, delegated);
                } else {
                    assert(after.delegations_by(who) =~= mine);
                }
            }
        },
        Call::Undelegate { delegator, candidate, amount } => {
            if outcome is Ok {
                lemma_held_change_of_single(outcome->Ok_0.commands[0], reason, who);
                let pair = (delegator, candidate);
                let current = before.delegations[pair].amount;
                if who == delegator {
                    if amount == current {
                        assert(after.delegations_by(who) =~= mine.remove(pair));
                        lemma_total_remove(mine, pair);
                    } else {
                        let left = (current - amount) as nat;
                        assert(after.delegations_by(who) =~= mine.insert(pair, left));
                        lemma_total_insert(mine, pair, left);
                    }
                } else {
                    assert(after.delegations_by(who) =~= mine);
                }
            }
        },
        Call::Unregister { candidate } => {
            if outcome is Ok {
                let list = before.delegators_of(candidate);
                let n = list.len() as int;
                let releases = before.delegator_releases(candidate);
                lemma_releases_of(before, candidate, n, reason, who);
                assert(releases.take(n) =~= releases);
                assert(list.take(n) =~= list);
                let release_bond = BalanceCommand::Release {
                    reason: HoldReason::CandidateBondReserved,
                    who: candidate,
                    amount: before.candidates[candidate].bond,
                };
                lemma_held_change_of_push(releases, release_bond, reason, who);
                let reward = before.reward_of(candidate);
                if reward > 0 {
                    lemma_held_change_of_push(
                        releases.push(release_bond),
                        BalanceCommand::Mint { who: candidate, amount: reward },
                        reason,
                        who,
                    );
                }
                let pair = (who, candidate);
                if list.contains(who) {
                    assert(after.delegations_by(who) =~= mine.remove(pair));
                    lemma_total_remove(mine, pair);
                } else {
                    assert(after.delegations_by(who) =~= mine);
                }
            }
        },
        Call::ClaimReward { who: claimer } => {
            if outcome is Ok {
                lemma_held_change_of_single(outcome->Ok_0.commands[0], reason, who);
            }
        },
        Call::Initialize { .. } => {},
    }
}

/// Conservation for every account: over any run, what the ledger records as locked of one
/// account, for either reason, has changed by exactly what it has asked the host to hold and
/// to release of that account for that reason. Nothing is released to anybody but the one
/// for whom it was held.
pub proof fn lemma_run_conserves_each(
    states: Seq<State>,
    calls: Seq<Call>,
    outcomes: Seq<Outcome>,
    reason: HoldReason,
    who: AccountId,
)
    requires
        is_run(states, calls, outcomes),
        states[0].wf(),
    ensures
        states.last().locked_of(reason, who) == states[0].locked_of(reason, who) + held_by_all_of(
            outcomes,
            reason,
            who,
        ),
    decreases calls.len(),
{
    if calls.len() > 0 {
        let n = calls.len() as int;
        let shorter = states.drop_last();
        lemma_run_conserves_each(shorter, calls.drop_last(), outcomes.drop_last(), reason, who);
        lemma_run_keeps_wf(shorter, calls.drop_last(), outcomes.drop_last());
        lemma_step_conserves_each(
            states[n - 1],
            calls[n - 1],
            outcomes[n - 1],
            states[n],
            reason,
            who,
        );
    }
}

} // verus!
