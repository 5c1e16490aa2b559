use dpos::{
    BalanceCommand, Config, Error, Event, GenesisConfig, HoldReason, Pallet,
    ReportNewValidatorSet,
};
use std::sync::Mutex;

static REPORTED: Mutex<Vec<Vec<u64>>> = Mutex::new(Vec::new());

struct Recorder;

impl ReportNewValidatorSet<u64> for Recorder {
    fn report_new_validator_set(new_set: Vec<u64>) {
        REPORTED.lock().unwrap().push(new_set);
    }
}

fn config() -> Config {
    Config {
        max_validators: 2,
        min_validators: 1,
        max_candidates: 3,
        max_candidate_delegators: 3,
        min_delegate_amount: 1,
        min_candidate_bond: 10,
        epoch_duration: 5,
        max_delegate_count: 3,
    }
}

fn hold(who: u64, amount: u128) -> BalanceCommand {
    BalanceCommand::Hold { reason: HoldReason::CandidateBondReserved, who, amount }
}

#[test]
fn genesis_registers_selects_and_reports() {
    let genesis = GenesisConfig { genesis_candidates: vec![(3, 30), (1, 10), (2, 20)] };
    let (ledger, receipt) = genesis.build::<Recorder>(config()).unwrap();
    assert_eq!(receipt.commands, vec![hold(3, 30), hold(1, 10), hold(2, 20)]);
    assert_eq!(
        receipt.events,
        vec![
            Event::CandidateRegistered { candidate_id: 3, initial_bond: 30 },
            Event::CandidateRegistered { candidate_id: 1, initial_bond: 10 },
            Event::CandidateRegistered { candidate_id: 2, initial_bond: 20 },
        ]
    );
    assert_eq!(receipt.reported, Some(vec![3, 2]));
    assert_eq!(*REPORTED.lock().unwrap(), vec![vec![3u64, 2]]);
    assert_eq!(ledger.epoch_index(), 0);
    assert_eq!(ledger.candidate_count(), 3);
    assert_eq!(ledger.current_validators(), &vec![(3, 30, 30), (2, 20, 20)]);
    let snapshot = ledger.last_epoch_snapshot().unwrap();
    assert_eq!(snapshot.validators.get(&3), Some(&30));
    assert_eq!(snapshot.validators.get(&2), Some(&20));
    assert_eq!(snapshot.validators.len(), 2);
    assert!(snapshot.delegations.is_empty());
}

#[test]
fn genesis_rewards_start_with_the_first_block() {
    let genesis = GenesisConfig { genesis_candidates: vec![(1, 100)] };
    let (mut ledger, _) = genesis.build::<Recorder>(config()).unwrap();
    ledger.on_initialize::<Recorder>(1, Some(1));
    assert_eq!(ledger.reward(&1), 5);
}

#[test]
fn genesis_without_candidates() {
    let genesis = GenesisConfig::default();
    assert!(genesis.genesis_candidates.is_empty());
    let (ledger, receipt) = genesis.build::<Recorder>(config()).unwrap();
    assert!(receipt.commands.is_empty());
    assert!(receipt.events.is_empty());
    assert_eq!(receipt.reported, Some(vec![]));
    assert_eq!(ledger.candidate_count(), 0);
    assert!(ledger.current_validators().is_empty());
    let snapshot = ledger.last_epoch_snapshot().unwrap();
    assert!(snapshot.validators.is_empty());
    assert!(snapshot.delegations.is_empty());
}

#[test]
fn genesis_rejects_duplicates() {
    let genesis = GenesisConfig { genesis_candidates: vec![(1, 10), (2, 20), (1, 30)] };
    assert_eq!(genesis.build::<Recorder>(config()).err(), Some(Error::CandidateAlreadyExist));
}

#[test]
fn genesis_rejects_what_registration_rejects() {
    let zero = GenesisConfig { genesis_candidates: vec![(1, 0)] };
    assert_eq!(zero.build::<Recorder>(config()).err(), Some(Error::InvalidZeroAmount));
    let low = GenesisConfig { genesis_candidates: vec![(1, 10), (2, 9)] };
    assert_eq!(low.build::<Recorder>(config()).err(), Some(Error::BelowMinimumCandidateBond));
    let many =
        GenesisConfig { genesis_candidates: vec![(1, 10), (2, 10), (3, 10), (4, 10)] };
    assert_eq!(many.build::<Recorder>(config()).err(), Some(Error::TooManyValidators));
}

#[test]
fn genesis_rejects_a_configuration_without_validators() {
    let mut config = config();
    config.max_validators = 0;
    let genesis = GenesisConfig { genesis_candidates: vec![(1, 10)] };
    assert_eq!(genesis.build::<Recorder>(config).err(), Some(Error::InvalidConfiguration));
    assert_eq!(Pallet::new(config).err(), Some(Error::InvalidConfiguration));
    assert!(!config.is_valid());
}

#[test]
fn genesis_rejects_epochs_without_length() {
    let mut config = config();
    config.epoch_duration = 0;
    assert_eq!(
        GenesisConfig::default().build::<Recorder>(config).err(),
        Some(Error::InvalidConfiguration)
    );
    assert_eq!(Pallet::new(config).err(), Some(Error::InvalidConfiguration));
}

#[test]
fn restore_rebuilds_what_was_listed() {
    let mut ledger = Pallet::new(config()).unwrap();
    ledger.register_as_candidate(1, 100).unwrap();
    ledger.register_as_candidate(2, 50).unwrap();
    ledger.delegate(20, 1, 7).unwrap();
    ledger.delegate(21, 1, 8).unwrap();
    ledger.delegate(20, 2, 9).unwrap();
    ledger.on_initialize::<Recorder>(0, None);
    ledger.on_initialize::<Recorder>(1, Some(1));

    let candidates: Vec<(u64, u128)> =
        ledger.candidates().into_iter().map(|(who, record)| (who, record.bond)).collect();
    let delegations: Vec<(u64, u64, u128)> = ledger
        .delegations()
        .into_iter()
        .map(|((delegator, candidate), delegation)| (delegator, candidate, delegation.amount))
        .collect();
    assert_eq!(candidates, vec![(1, 100), (2, 50)]);
    assert_eq!(delegations, vec![(20, 1, 7), (20, 2, 9), (21, 1, 8)]);
    // 5 % of 7 and of 8 round to nothing, which is recorded as such
    assert_eq!(ledger.rewards(), vec![(1, 5), (20, 0), (21, 0)]);

    let copy = Pallet::restore(
        ledger.config(),
        &candidates,
        &delegations,
        &ledger.rewards(),
        ledger.epoch_index(),
        ledger.current_validators().clone(),
        ledger.last_epoch_snapshot().cloned(),
    )
    .unwrap();
    assert_eq!(copy.candidates(), ledger.candidates());
    assert_eq!(copy.delegations(), ledger.delegations());
    assert_eq!(copy.rewards(), ledger.rewards());
    assert_eq!(copy.epoch_index(), 1);
    assert_eq!(copy.current_validators(), ledger.current_validators());
    assert_eq!(copy.last_epoch_snapshot(), ledger.last_epoch_snapshot());
    assert_eq!(copy.candidate_delegators(&1), vec![20, 21]);
    assert_eq!(copy.delegate_count(&20), 2);
    assert_eq!(copy.delegate_count(&21), 1);
    assert_eq!(copy.get_candidate(&1).unwrap().sum_delegation, 15);
}

#[test]
fn restore_refuses_what_the_ledger_would_refuse() {
    assert_eq!(
        Pallet::restore(config(), &vec![(1, 5)], &vec![], &vec![], 0, vec![], None).err(),
        Some(Error::BelowMinimumCandidateBond)
    );
    assert_eq!(
        Pallet::restore(config(), &vec![(1, 50)], &vec![(20, 2, 5)], &vec![], 0, vec![], None)
            .err(),
        Some(Error::CandidateDoesNotExist)
    );
    assert_eq!(
        Pallet::restore(
            config(),
            &vec![(1, 50)],
            &vec![],
            &vec![],
            0,
            vec![(1, 50, 50), (2, 50, 50), (3, 50, 50)],
            None
        )
        .err(),
        Some(Error::TooManyValidators)
    );
    let mut unusable = config();
    unusable.max_validators = 0;
    assert_eq!(
        Pallet::restore(unusable, &vec![], &vec![], &vec![], 0, vec![], None).err(),
        Some(Error::InvalidConfiguration)
    );
}
