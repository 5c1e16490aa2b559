//! Every operation of stake accounting keeps the ledger well formed.
use crate::delegators::{lemma_with_delegator, lemma_without_delegator};
use crate::state::{lemma_delegations_to_finite, lemma_stakes_untouched, State};
use crate::sums::{lemma_total_insert, lemma_total_remove};
use crate::types::{AccountId, Balance};
use vstd::prelude::*;

verus! {

/// Registering keeps the ledger well formed.
pub proof fn lemma_register_wf(s: State, who: AccountId, bond: Balance)
    requires
        s.wf(),
    ensures
        s.register_state(who, bond).wf(),
{
    let t = s.register_state(who, bond);
    if s.register_error(who, bond) is None {
        assert forall|c: AccountId| #[trigger] t.candidates.contains_key(c) implies
            t.candidates[c].sum_delegation == t.delegated_to(c) by {
            if c == who {
                assert forall|pair: (AccountId, AccountId)| !s.delegations_to(who).contains_key(
                    pair,
                ) by {
                    if s.delegations.contains_key((pair.0, pair.1)) && pair.1 == who {
                        assert(s.candidates.contains_key(who));
                    }
                }
                assert(s.delegations_to(who) =~= Map::empty());
            } else {
                assert(s.candidates.contains_key(c));
            }
        }
        assert forall|d: AccountId|
            (#[trigger] t.backed_by(d)).finite() && t.delegate_count(d) == t.backed_by(d).len() by {
            assert(s.backed_by(d).finite());
        }
    }
}

/// Claiming keeps the ledger well formed.
pub proof fn lemma_claim_wf(s: State, who: AccountId)
    requires
        s.wf(),
    ensures
        s.claim_state(who).wf(),
{
    let t = s.claim_state(who);
    lemma_stakes_untouched(s, t);
}

/// Delegating keeps the ledger well formed.
pub proof fn lemma_delegate_wf(
    s: State,
    delegator: AccountId,
    candidate: AccountId,
    amount: Balance,
)
    requires
        s.wf(),
    ensures
        s.delegate_state(delegator, candidate, amount).wf(),
{
    if s.delegate_error(delegator, candidate, amount) is None {
        lemma_with_delegator(s.delegators_of(candidate), delegator);
        lemma_delegate_stakes(s, delegator, candidate, amount);
        lemma_delegate_counts(s, delegator, candidate, amount);
    }
}

/// Delegating keeps the delegated sums right.
proof fn lemma_delegate_stakes(
    s: State,
    delegator: AccountId,
    candidate: AccountId,
    amount: Balance,
)
    requires
        s.wf(),
        s.delegate_error(delegator, candidate, amount) is None,
    ensures
        s.delegate_state(delegator, candidate, amount).stakes_consistent(),
{
    let t = s.delegate_state(delegator, candidate, amount);
    let pair = (delegator, candidate);
    assert forall|c: AccountId| #[trigger] t.candidates.contains_key(c) implies
        t.candidates[c].sum_delegation == t.delegated_to(c) by {
        if c == candidate {
            let delegated = s.delegated_after(delegator, candidate, amount) as nat;
            lemma_delegations_to_finite(s, c);
            assert(t.delegations_to(c) =~= s.delegations_to(c).insert(pair, delegated));
            lemma_total_insert(s.delegations_to(c), pair, delegated);
        } else {
            assert(t.delegations_to(c) =~= s.delegations_to(c));
        }
    }
}

/// Delegating keeps the counts of the delegators right.
proof fn lemma_delegate_counts(
    s: State,
    delegator: AccountId,
    candidate: AccountId,
    amount: Balance,
)
    requires
        s.wf(),
        s.delegate_error(delegator, candidate, amount) is None,
    ensures
        s.delegate_state(delegator, candidate, amount).counts_exact(),
{
    let t = s.delegate_state(delegator, candidate, amount);
    assert forall|d: AccountId|
        (#[trigger] t.backed_by(d)).finite() && t.delegate_count(d) == t.backed_by(d).len() by {
        if d == delegator && !s.delegations.contains_key((delegator, candidate)) {
            assert(t.backed_by(d) =~= s.backed_by(d).insert(candidate));
        } else {
            assert(t.backed_by(d) =~= s.backed_by(d));
        }
    }
}

/// Undelegating keeps the delegated sums right.
proof fn lemma_undelegate_stakes(
    s: State,
    delegator: AccountId,
    candidate: AccountId,
    amount: Balance,
)
    requires
        s.wf(),
        s.undelegate_error(delegator, candidate, amount) is None,
    ensures
        s.undelegate_state(delegator, candidate, amount).stakes_consistent(),
{
    let t = s.undelegate_state(delegator, candidate, amount);
    let pair = (delegator, candidate);
    let current = s.delegations[pair].amount;
    assert forall|c: AccountId| #[trigger] t.candidates.contains_key(c) implies
        t.candidates[c].sum_delegation == t.delegated_to(c) by {
        if c == candidate {
            lemma_delegations_to_finite(s, c);
            if amount == current {
                assert(t.delegations_to(c) =~= s.delegations_to(c).remove(pair));
                lemma_total_remove(s.delegations_to(c), pair);
            } else {
                let left = (current - amount) as nat;
                assert(t.delegations_to(c) =~= s.delegations_to(c).insert(pair, left));
                lemma_total_insert(s.delegations_to(c), pair, left);
            }
        } else {
            assert(t.delegations_to(c) =~= s.delegations_to(c));
        }
    }
}

/// Undelegating keeps the counts of the delegators right.
proof fn lemma_undelegate_counts(
    s: State,
    delegator: AccountId,
    candidate: AccountId,
    amount: Balance,
)
    requires
        s.wf(),
        s.undelegate_error(delegator, candidate, amount) is None,
    ensures
        s.undelegate_state(delegator, candidate, amount).counts_exact(),
{
    let t = s.undelegate_state(delegator, candidate, amount);
    let current = s.delegations[(delegator, candidate)].amount;
    assert forall|d: AccountId|
        (#[trigger] t.backed_by(d)).finite() && t.delegate_count(d) == t.backed_by(d).len() by {
        if d == delegator && amount == current {
            assert(t.backed_by(d) =~= s.backed_by(d).remove(candidate));
        } else {
            assert(t.backed_by(d) =~= s.backed_by(d));
        }
    }
}

/// Leaving the pool keeps the delegated sums and the counts of the delegators right.
proof fn lemma_unregister_stakes(s: State, candidate: AccountId)
    requires
        s.wf(),
        s.unregister_error(candidate) is None,
    ensures
        s.unregister_state(candidate).stakes_consistent(),
        s.unregister_state(candidate).counts_exact(),
{
    let t = s.unregister_state(candidate);
    let list = s.delegators_of(candidate);
    assert(list.take(list.len() as int) == list);
    assert forall|c: AccountId| #[trigger] t.candidates.contains_key(c) implies
        t.candidates[c].sum_delegation == t.delegated_to(c) by {
        assert(t.delegations_to(c) =~= s.delegations_to(c));
    }
    assert forall|d: AccountId|
        (#[trigger] t.backed_by(d)).finite() && t.delegate_count(d) == t.backed_by(d).len() by {
        if list.contains(d) {
            let i = choose|i: int| 0 <= i < list.len() && list[i] == d;
            assert(t.backed_by(d) =~= s.backed_by(d).remove(candidate));
        } else {
            if s.delegations.contains_key((d, candidate)) {
                assert(s.delegators_of(candidate).contains(d));
            }
            assert(t.backed_by(d) =~= s.backed_by(d));
        }
    }
}

/// Undelegating keeps the ledger well formed.
pub proof fn lemma_undelegate_wf(
    s: State,
    delegator: AccountId,
    candidate: AccountId,
    amount: Balance,
)
    requires
        s.wf(),
    ensures
        s.undelegate_state(delegator, candidate, amount).wf(),
{
    if s.undelegate_error(delegator, candidate, amount) is None {
        lemma_without_delegator(s.delegators_of(candidate), delegator);
        lemma_undelegate_stakes(s, delegator, candidate, amount);
        lemma_undelegate_counts(s, delegator, candidate, amount);
    }
}

/// Leaving the pool keeps the ledger well formed.
pub proof fn lemma_unregister_wf(s: State, candidate: AccountId)
    requires
        s.wf(),
    ensures
        s.unregister_state(candidate).wf(),
{
    let t = s.unregister_state(candidate);
    if s.unregister_error(candidate) is None {
        let list = s.delegators_of(candidate);
        assert(list.take(list.len() as int) == list);
        vstd::set_lib::lemma_set_subset_finite(s.delegations.dom(), t.delegations.dom());
        lemma_unregister_stakes(s, candidate);
    }
}

} // verus!
