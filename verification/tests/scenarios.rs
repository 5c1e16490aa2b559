use dpos::{
    BalanceCommand, Candidate, Config, Error, Event, HoldReason, Pallet, ReportNewValidatorSet,
};
use std::sync::Mutex;

static REPORTED: Mutex<Vec<Vec<u64>>> = Mutex::new(Vec::new());

struct Recorder;

impl ReportNewValidatorSet<u64> for Recorder {
    fn report_new_validator_set(new_set: Vec<u64>) {
        REPORTED.lock().unwrap().push(new_set);
    }
}

struct DoNothing;

impl ReportNewValidatorSet<u64> for DoNothing {}

fn config() -> Config {
    Config {
        max_validators: 2,
        min_validators: 1,
        max_candidates: 10,
        max_candidate_delegators: 3,
        min_delegate_amount: 5,
        min_candidate_bond: 50,
        epoch_duration: 10,
        max_delegate_count: 2,
    }
}

const C1: u64 = 1;
const D1: u64 = 101;

#[test]
fn register_candidate_with_sufficient_bond() {
    let mut ledger = Pallet::new(config()).unwrap();
    let receipt = ledger.register_as_candidate(C1, 100).unwrap();
    assert_eq!(
        receipt.commands,
        vec![BalanceCommand::Hold {
            reason: HoldReason::CandidateBondReserved,
            who: C1,
            amount: 100
        }]
    );
    assert_eq!(
        receipt.events,
        vec![Event::CandidateRegistered { candidate_id: C1, initial_bond: 100 }]
    );
    assert!(ledger.is_candidate(&C1));
    assert_eq!(ledger.candidate_count(), 1);
    let record = ledger.get_candidate(&C1).unwrap();
    assert_eq!(record, Candidate { bond: 100, sum_delegation: 0 });
    assert_eq!(record.total(), 100);
}

#[test]
fn delegate_twice_aggregates() {
    let mut ledger = Pallet::new(config()).unwrap();
    ledger.register_as_candidate(C1, 100).unwrap();
    let first = ledger.delegate(D1, C1, 10).unwrap();
    assert_eq!(
        first.commands,
        vec![BalanceCommand::Hold {
            reason: HoldReason::DelegateAmountReserved,
            who: D1,
            amount: 10
        }]
    );
    assert_eq!(
        first.events,
        vec![Event::CandidateDelegated {
            candidate_id: C1,
            delegated_by: D1,
            amount: 10,
            total_delegated_amount: 10
        }]
    );
    let record = ledger.get_candidate(&C1).unwrap();
    assert_eq!(record.sum_delegation, 10);
    assert_eq!(record.total(), 110);
    assert_eq!(ledger.delegate_count(&D1), 1);

    let second = ledger.delegate(D1, C1, 5).unwrap();
    assert_eq!(
        second.events,
        vec![Event::CandidateDelegated {
            candidate_id: C1,
            delegated_by: D1,
            amount: 5,
            total_delegated_amount: 15
        }]
    );
    assert_eq!(ledger.get_delegation(&D1, &C1).unwrap().amount, 15);
    assert_eq!(ledger.delegate_count(&D1), 1);
    assert_eq!(ledger.candidate_delegators(&C1), vec![D1]);
    assert_eq!(ledger.get_candidate(&C1).unwrap().sum_delegation, 15);
}

#[test]
fn undelegate_everything_removes_the_delegation() {
    let mut ledger = Pallet::new(config()).unwrap();
    ledger.register_as_candidate(C1, 100).unwrap();
    ledger.delegate(D1, C1, 10).unwrap();
    ledger.delegate(D1, C1, 5).unwrap();
    let receipt = ledger.undelegate(D1, C1, 15).unwrap();
    assert_eq!(
        receipt.commands,
        vec![BalanceCommand::Release {
            reason: HoldReason::DelegateAmountReserved,
            who: D1,
            amount: 15
        }]
    );
    assert_eq!(
        receipt.events,
        vec![Event::CandidateUndelegated {
            candidate_id: C1,
            delegator: D1,
            amount: 15,
            left_delegated_amount: 0
        }]
    );
    assert_eq!(ledger.get_delegation(&D1, &C1), Err(Error::DelegationDoesNotExist));
    assert_eq!(ledger.delegate_count(&D1), 0);
    assert_eq!(ledger.get_candidate(&C1).unwrap().sum_delegation, 0);
    assert_eq!(ledger.candidate_delegators(&C1), Vec::<u64>::new());
}

#[test]
fn selection_takes_the_two_highest_stakes() {
    let mut ledger = Pallet::new(config()).unwrap();
    ledger.register_as_candidate(3, 100).unwrap();
    ledger.register_as_candidate(1, 300).unwrap();
    ledger.register_as_candidate(2, 200).unwrap();
    let first = ledger.select_validator_set();
    assert_eq!(first, vec![(1, 300, 300), (2, 200, 200)]);
    let second = ledger.select_validator_set();
    assert_eq!(first, second);
}

#[test]
fn block_author_and_delegator_are_rewarded_from_the_snapshot() {
    let mut ledger = Pallet::new(config()).unwrap();
    ledger.register_as_candidate(7, 1000).unwrap();
    ledger.delegate(D1, 7, 200).unwrap();
    let at_boundary = ledger.on_initialize::<Recorder>(10, Some(7));
    assert_eq!(
        at_boundary.events,
        vec![Event::NextEpochMoved {
            last_epoch: 0,
            next_epoch: 1,
            at_block: 10,
            total_candidates: 1,
            total_validators: 1
        }]
    );
    assert_eq!(*REPORTED.lock().unwrap(), vec![vec![7u64]]);
    assert_eq!(ledger.reward(&7), 0);
    assert_eq!(ledger.reward(&D1), 0);
    let next = ledger.on_initialize::<DoNothing>(11, Some(7));
    assert!(next.events.is_empty());
    assert!(next.commands.is_empty());
    assert_eq!(ledger.reward(&7), 50);
    assert_eq!(ledger.reward(&D1), 10);
    ledger.on_initialize::<DoNothing>(12, Some(7));
    assert_eq!(ledger.reward(&7), 100);
    assert_eq!(ledger.reward(&D1), 20);
}

#[test]
fn delegate_zero_is_refused_and_changes_nothing() {
    let mut ledger = Pallet::new(config()).unwrap();
    ledger.register_as_candidate(C1, 100).unwrap();
    assert_eq!(ledger.delegate(D1, C1, 0), Err(Error::InvalidZeroAmount));
    assert_eq!(ledger.get_candidate(&C1).unwrap(), Candidate { bond: 100, sum_delegation: 0 });
    assert_eq!(ledger.get_delegation(&D1, &C1), Err(Error::DelegationDoesNotExist));
    assert_eq!(ledger.delegate_count(&D1), 0);
    assert_eq!(ledger.candidate_delegators(&C1), Vec::<u64>::new());
}
