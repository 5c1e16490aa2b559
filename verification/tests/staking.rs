use dpos::{
    BalanceCommand, Candidate, Config, Delegation, Error, Event, HoldReason, Pallet,
    ReportNewValidatorSet,
};

struct DoNothing;

impl ReportNewValidatorSet<u64> for DoNothing {}

fn config() -> Config {
    Config {
        max_validators: 2,
        min_validators: 1,
        max_candidates: 3,
        max_candidate_delegators: 2,
        min_delegate_amount: 5,
        min_candidate_bond: 50,
        epoch_duration: 10,
        max_delegate_count: 2,
    }
}

fn ledger_with_candidates(candidates: &[(u64, u128)]) -> Pallet {
    let mut ledger = Pallet::new(config()).unwrap();
    for (who, bond) in candidates {
        ledger.register_as_candidate(*who, *bond).unwrap();
    }
    ledger
}

#[test]
fn register_refuses_a_zero_bond() {
    let mut ledger = Pallet::new(config()).unwrap();
    assert_eq!(ledger.register_as_candidate(1, 0), Err(Error::InvalidZeroAmount));
    assert!(!ledger.is_candidate(&1));
    assert_eq!(ledger.candidate_count(), 0);
}

#[test]
fn register_refuses_a_bond_below_the_minimum() {
    let mut ledger = Pallet::new(config()).unwrap();
    assert_eq!(ledger.register_as_candidate(1, 49), Err(Error::BelowMinimumCandidateBond));
    assert!(!ledger.is_candidate(&1));
    assert!(ledger.register_as_candidate(1, 50).is_ok());
}

#[test]
fn register_refuses_an_account_of_the_pool() {
    let mut ledger = ledger_with_candidates(&[(1, 100)]);
    assert_eq!(ledger.register_as_candidate(1, 200), Err(Error::CandidateAlreadyExist));
    assert_eq!(ledger.get_candidate(&1), Ok(Candidate { bond: 100, sum_delegation: 0 }));
}

#[test]
fn register_refuses_when_the_pool_is_full() {
    let mut ledger = ledger_with_candidates(&[(1, 100), (2, 100), (3, 100)]);
    assert_eq!(ledger.register_as_candidate(4, 100), Err(Error::TooManyValidators));
    assert_eq!(ledger.candidate_count(), 3);
    assert!(!ledger.is_candidate(&4));
}

#[test]
fn register_checks_the_bond_before_the_pool() {
    let mut ledger = ledger_with_candidates(&[(1, 100), (2, 100), (3, 100)]);
    assert_eq!(ledger.register_as_candidate(1, 0), Err(Error::InvalidZeroAmount));
    assert_eq!(ledger.register_as_candidate(1, 10), Err(Error::BelowMinimumCandidateBond));
    assert_eq!(ledger.register_as_candidate(1, 100), Err(Error::CandidateAlreadyExist));
}

#[test]
fn get_candidate_of_a_stranger_fails() {
    let ledger = ledger_with_candidates(&[(1, 100)]);
    assert_eq!(ledger.get_candidate(&2), Err(Error::CandidateDoesNotExist));
    assert!(!ledger.is_candidate(&2));
    assert_eq!(ledger.config(), config());
}

#[test]
fn delegate_refuses_a_first_amount_below_the_minimum() {
    let mut ledger = ledger_with_candidates(&[(1, 100)]);
    assert_eq!(ledger.delegate(10, 1, 4), Err(Error::BelowMinimumDelegateAmount));
    assert_eq!(ledger.get_delegation(&10, &1), Err(Error::DelegationDoesNotExist));
    assert_eq!(ledger.delegate_count(&10), 0);
    assert!(ledger.delegate(10, 1, 5).is_ok());
}

#[test]
fn delegate_accepts_a_small_top_up() {
    let mut ledger = ledger_with_candidates(&[(1, 100)]);
    ledger.delegate(10, 1, 5).unwrap();
    ledger.delegate(10, 1, 1).unwrap();
    assert_eq!(ledger.get_delegation(&10, &1), Ok(Delegation { amount: 6 }));
}

#[test]
fn delegate_refuses_one_candidate_too_many() {
    let mut ledger = ledger_with_candidates(&[(1, 100), (2, 100), (3, 100)]);
    ledger.delegate(10, 1, 5).unwrap();
    ledger.delegate(10, 2, 5).unwrap();
    assert_eq!(ledger.delegate(10, 3, 5), Err(Error::TooManyCandidateDelegations));
    assert_eq!(ledger.delegate_count(&10), 2);
    assert_eq!(ledger.get_delegation(&10, &3), Err(Error::DelegationDoesNotExist));
    assert_eq!(ledger.get_candidate(&3).unwrap().sum_delegation, 0);
    assert!(ledger.delegate(10, 1, 5).is_ok());
    assert_eq!(ledger.delegate_count(&10), 2);
}

#[test]
fn delegate_refuses_when_the_list_of_delegators_is_full() {
    let mut ledger = ledger_with_candidates(&[(1, 100)]);
    ledger.delegate(10, 1, 5).unwrap();
    ledger.delegate(11, 1, 5).unwrap();
    assert_eq!(ledger.delegate(12, 1, 5), Err(Error::TooManyDelegatorsInPool));
    assert_eq!(ledger.delegator_count(&1), 2);
    assert_eq!(ledger.delegate_count(&12), 0);
    assert_eq!(ledger.get_candidate(&1).unwrap().sum_delegation, 10);
}

#[test]
fn delegate_refuses_a_stranger_as_candidate() {
    let mut ledger = ledger_with_candidates(&[(1, 100)]);
    assert_eq!(ledger.delegate(10, 2, 5), Err(Error::CandidateDoesNotExist));
    assert_eq!(ledger.delegate_count(&10), 0);
    assert_eq!(ledger.candidate_delegators(&2), Vec::<u64>::new());
    assert_eq!(ledger.get_delegation(&10, &2), Err(Error::DelegationDoesNotExist));
}

#[test]
fn delegate_reports_an_overflow_of_the_delegation() {
    let mut ledger = ledger_with_candidates(&[(1, 100), (2, 100)]);
    ledger.delegate(10, 1, u128::MAX).unwrap();
    assert_eq!(ledger.delegate(10, 1, 1), Err(Error::Overflow));
    assert_eq!(ledger.get_delegation(&10, &1), Ok(Delegation { amount: u128::MAX }));
    assert_eq!(ledger.get_candidate(&1).unwrap().sum_delegation, u128::MAX);
}

#[test]
fn delegate_reports_an_overflow_of_the_delegated_sum() {
    let mut ledger = ledger_with_candidates(&[(1, 100)]);
    ledger.delegate(10, 1, u128::MAX - 1).unwrap();
    assert_eq!(ledger.delegate(11, 1, 5), Err(Error::Overflow));
    assert_eq!(ledger.delegate_count(&11), 0);
    assert_eq!(ledger.candidate_delegators(&1), vec![10]);
    assert_eq!(ledger.get_delegation(&11, &1), Err(Error::DelegationDoesNotExist));
    assert_eq!(ledger.get_candidate(&1).unwrap().sum_delegation, u128::MAX - 1);
    assert_eq!(ledger.get_candidate(&1).unwrap().total(), u128::MAX);
}

#[test]
fn delegators_are_listed_in_increasing_order() {
    let mut config = config();
    config.max_candidate_delegators = 5;
    let mut ledger = Pallet::new(config).unwrap();
    ledger.register_as_candidate(1, 100).unwrap();
    for delegator in [30u64, 10, 40, 20] {
        ledger.delegate(delegator, 1, 5).unwrap();
    }
    assert_eq!(ledger.candidate_delegators(&1), vec![10, 20, 30, 40]);
    ledger.undelegate(30, 1, 5).unwrap();
    assert_eq!(ledger.candidate_delegators(&1), vec![10, 20, 40]);
    assert_eq!(ledger.delegator_count(&1), 3);
}

#[test]
fn undelegate_refuses_a_stranger_as_candidate() {
    let mut ledger = ledger_with_candidates(&[(1, 100)]);
    assert_eq!(ledger.undelegate(10, 2, 5), Err(Error::CandidateDoesNotExist));
    assert_eq!(ledger.undelegate(10, 2, 0), Err(Error::CandidateDoesNotExist));
}

#[test]
fn undelegate_refuses_a_zero_amount() {
    let mut ledger = ledger_with_candidates(&[(1, 100)]);
    ledger.delegate(10, 1, 10).unwrap();
    assert_eq!(ledger.undelegate(10, 1, 0), Err(Error::InvalidZeroAmount));
    assert_eq!(ledger.get_delegation(&10, &1), Ok(Delegation { amount: 10 }));
}

#[test]
fn undelegate_refuses_when_nothing_is_delegated() {
    let mut ledger = ledger_with_candidates(&[(1, 100)]);
    assert_eq!(ledger.undelegate(10, 1, 5), Err(Error::DelegationDoesNotExist));
}

#[test]
fn undelegate_refuses_more_than_is_delegated() {
    let mut ledger = ledger_with_candidates(&[(1, 100)]);
    ledger.delegate(10, 1, 10).unwrap();
    assert_eq!(ledger.undelegate(10, 1, 11), Err(Error::InvalidMinimumDelegateAmount));
    assert_eq!(ledger.get_delegation(&10, &1), Ok(Delegation { amount: 10 }));
    assert_eq!(ledger.get_candidate(&1).unwrap().sum_delegation, 10);
}

#[test]
fn undelegate_refuses_to_leave_less_than_the_minimum() {
    let mut ledger = ledger_with_candidates(&[(1, 100)]);
    ledger.delegate(10, 1, 10).unwrap();
    assert_eq!(ledger.undelegate(10, 1, 6), Err(Error::BelowMinimumDelegateAmount));
    assert_eq!(ledger.get_delegation(&10, &1), Ok(Delegation { amount: 10 }));
    assert_eq!(ledger.delegate_count(&10), 1);
}

#[test]
fn undelegate_a_part_keeps_the_delegation() {
    let mut ledger = ledger_with_candidates(&[(1, 100)]);
    ledger.delegate(10, 1, 12).unwrap();
    let receipt = ledger.undelegate(10, 1, 7).unwrap();
    assert_eq!(
        receipt.commands,
        vec![BalanceCommand::Release {
            reason: HoldReason::DelegateAmountReserved,
            who: 10,
            amount: 7
        }]
    );
    assert_eq!(
        receipt.events,
        vec![Event::CandidateUndelegated {
            candidate_id: 1,
            delegator: 10,
            amount: 7,
            left_delegated_amount: 5
        }]
    );
    assert_eq!(ledger.get_delegation(&10, &1), Ok(Delegation { amount: 5 }));
    assert_eq!(ledger.delegate_count(&10), 1);
    assert_eq!(ledger.candidate_delegators(&1), vec![10]);
    assert_eq!(ledger.get_candidate(&1).unwrap(), Candidate { bond: 100, sum_delegation: 5 });
}

#[test]
fn claim_without_reward_is_refused() {
    let mut ledger = ledger_with_candidates(&[(1, 100)]);
    assert_eq!(ledger.claim_reward(1), Err(Error::NoClaimableRewardFound));
    assert_eq!(ledger.claim_reward(99), Err(Error::NoClaimableRewardFound));
}

#[test]
fn claim_pays_the_accrued_reward_once() {
    let mut ledger = ledger_with_candidates(&[(1, 1000)]);
    ledger.on_initialize::<DoNothing>(0, None);
    ledger.on_initialize::<DoNothing>(1, Some(1));
    assert_eq!(ledger.reward(&1), 50);
    let receipt = ledger.claim_reward(1).unwrap();
    assert_eq!(receipt.commands, vec![BalanceCommand::Mint { who: 1, amount: 50 }]);
    assert_eq!(receipt.events, vec![Event::RewardClaimed { claimer: 1, total_reward: 50 }]);
    assert_eq!(ledger.reward(&1), 0);
    assert_eq!(ledger.claim_reward(1), Err(Error::NoClaimableRewardFound));
}

#[test]
fn unregister_refuses_a_stranger() {
    let mut ledger = ledger_with_candidates(&[(1, 100)]);
    assert_eq!(ledger.unregister_as_candidate(2), Err(Error::CandidateDoesNotExist));
    assert!(ledger.is_candidate(&1));
}

#[test]
fn unregister_releases_delegations_bond_and_reward() {
    let mut ledger = ledger_with_candidates(&[(1, 1000), (2, 100)]);
    ledger.delegate(20, 1, 7).unwrap();
    ledger.delegate(10, 1, 5).unwrap();
    ledger.delegate(10, 2, 9).unwrap();
    ledger.on_initialize::<DoNothing>(0, None);
    ledger.on_initialize::<DoNothing>(1, Some(1));
    assert_eq!(ledger.reward(&1), 50);

    let receipt = ledger.unregister_as_candidate(1).unwrap();
    assert_eq!(
        receipt.commands,
        vec![
            BalanceCommand::Release {
                reason: HoldReason::DelegateAmountReserved,
                who: 10,
                amount: 5
            },
            BalanceCommand::Release {
                reason: HoldReason::DelegateAmountReserved,
                who: 20,
                amount: 7
            },
            BalanceCommand::Release {
                reason: HoldReason::CandidateBondReserved,
                who: 1,
                amount: 1000
            },
            BalanceCommand::Mint { who: 1, amount: 50 },
        ]
    );
    assert_eq!(
        receipt.events,
        vec![
            Event::RewardClaimed { claimer: 1, total_reward: 50 },
            Event::CandidateRegistrationRemoved { candidate_id: 1 },
        ]
    );
    assert!(!ledger.is_candidate(&1));
    assert_eq!(ledger.candidate_count(), 1);
    assert_eq!(ledger.reward(&1), 0);
    assert_eq!(ledger.get_delegation(&10, &1), Err(Error::DelegationDoesNotExist));
    assert_eq!(ledger.get_delegation(&20, &1), Err(Error::DelegationDoesNotExist));
    assert_eq!(ledger.get_delegation(&10, &2), Ok(Delegation { amount: 9 }));
    assert_eq!(ledger.delegate_count(&10), 1);
    assert_eq!(ledger.delegate_count(&20), 0);
    assert_eq!(ledger.candidate_delegators(&1), Vec::<u64>::new());
    assert_eq!(ledger.candidate_delegators(&2), vec![10]);
    // the rewards of the delegators stay to be claimed
    assert_eq!(ledger.reward(&20), 0);
}

#[test]
fn unregister_without_reward_mints_nothing() {
    let mut ledger = ledger_with_candidates(&[(1, 100)]);
    let receipt = ledger.unregister_as_candidate(1).unwrap();
    assert_eq!(
        receipt.commands,
        vec![BalanceCommand::Release {
            reason: HoldReason::CandidateBondReserved,
            who: 1,
            amount: 100
        }]
    );
    assert_eq!(receipt.events, vec![Event::CandidateRegistrationRemoved { candidate_id: 1 }]);
    assert_eq!(ledger.candidate_count(), 0);
    assert!(ledger.register_as_candidate(1, 60).is_ok());
}

#[test]
fn unregister_changes_nothing_when_a_listed_delegator_has_no_delegation() {
    let mut ledger = ledger_with_candidates(&[(1, 100)]);
    ledger.delegate(10, 1, 5).unwrap();
    ledger.add_candidate_delegator(&1, &11).unwrap();
    assert_eq!(ledger.candidate_delegators(&1), vec![10, 11]);
    assert_eq!(ledger.unregister_as_candidate(1), Err(Error::DelegationDoesNotExist));
    assert!(ledger.is_candidate(&1));
    assert_eq!(ledger.get_delegation(&10, &1), Ok(Delegation { amount: 5 }));
    assert_eq!(ledger.delegate_count(&10), 1);
    assert_eq!(ledger.candidate_delegators(&1), vec![10, 11]);
}

#[test]
fn add_candidate_delegator_respects_the_capacity() {
    let mut ledger = ledger_with_candidates(&[(1, 100)]);
    assert_eq!(ledger.add_candidate_delegator(&1, &12), Ok(()));
    assert_eq!(ledger.add_candidate_delegator(&1, &11), Ok(()));
    assert_eq!(ledger.candidate_delegators(&1), vec![11, 12]);
    assert_eq!(ledger.add_candidate_delegator(&1, &13), Err(Error::TooManyDelegatorsInPool));
    assert_eq!(ledger.candidate_delegators(&1), vec![11, 12]);
}

#[test]
fn release_candidate_bonds_names_the_bond_reason() {
    assert_eq!(
        Pallet::release_candidate_bonds(&4, 77),
        BalanceCommand::Release { reason: HoldReason::CandidateBondReserved, who: 4, amount: 77 }
    );
}
