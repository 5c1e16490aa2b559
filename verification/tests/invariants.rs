use dpos::{BalanceCommand, Config, HoldReason, Pallet, Receipt, ReportNewValidatorSet};

struct DoNothing;

impl ReportNewValidatorSet<u64> for DoNothing {}

fn config() -> Config {
    Config {
        max_validators: 2,
        min_validators: 1,
        max_candidates: 3,
        max_candidate_delegators: 2,
        min_delegate_amount: 5,
        min_candidate_bond: 50,
        epoch_duration: 4,
        max_delegate_count: 2,
    }
}

/// What the host holds after carrying out the commands of the receipts, for all accounts.
#[derive(Default)]
struct Escrow {
    held: std::collections::BTreeMap<(bool, u64), u128>,
    minted: u128,
}

impl Escrow {
    fn carry_out(&mut self, receipt: &Receipt) {
        for command in &receipt.commands {
            match *command {
                BalanceCommand::Hold { reason, who, amount } => {
                    let key = (reason == HoldReason::CandidateBondReserved, who);
                    *self.held.entry(key).or_insert(0) += amount;
                }
                BalanceCommand::Release { reason, who, amount } => {
                    let held = self
                        .held
                        .get_mut(&(reason == HoldReason::CandidateBondReserved, who))
                        .expect("released for somebody for whom nothing is held");
                    assert!(*held >= amount, "released more than is held");
                    *held -= amount;
                }
                BalanceCommand::Mint { amount, .. } => self.minted += amount,
            }
        }
    }

    fn total(&self) -> u128 {
        self.held.values().sum()
    }

    fn of(&self, bond: bool, who: u64) -> u128 {
        self.held.get(&(bond, who)).copied().unwrap_or(0)
    }
}

fn recorded(ledger: &Pallet) -> u128 {
    let bonds: u128 = ledger.candidates().iter().map(|(_, record)| record.bond).sum();
    let delegated: u128 =
        ledger.delegations().iter().map(|(_, delegation)| delegation.amount).sum();
    bonds + delegated
}

fn check(ledger: &Pallet, escrow: &Escrow) {
    let limits = ledger.config();
    // conservation, in total and for every account
    assert_eq!(escrow.total(), recorded(ledger));
    for who in 0u64..40 {
        let bond = ledger.get_candidate(&who).map(|record| record.bond).unwrap_or(0);
        assert_eq!(escrow.of(true, who), bond);
        let delegated: u128 = ledger
            .delegations()
            .iter()
            .filter(|((delegator, _), _)| *delegator == who)
            .map(|(_, delegation)| delegation.amount)
            .sum();
        assert_eq!(escrow.of(false, who), delegated);
        // the count of a delegator is the number of candidates that it backs
        let backed =
            ledger.delegations().iter().filter(|((delegator, _), _)| *delegator == who).count();
        assert_eq!(ledger.delegate_count(&who) as usize, backed);
        assert!(ledger.delegate_count(&who) <= limits.max_delegate_count);
    }
    // bounds
    assert!(ledger.candidate_count() <= limits.max_candidates as usize);
    assert!(ledger.current_validators().len() <= limits.max_validators as usize);
    for (candidate, record) in ledger.candidates() {
        let delegators = ledger.candidate_delegators(&candidate);
        assert!(delegators.len() <= limits.max_candidate_delegators as usize);
        assert!(delegators.windows(2).all(|pair| pair[0] < pair[1]));
        // the delegated sum of a candidate is what its delegators have behind it
        let sum: u128 = ledger
            .delegations()
            .iter()
            .filter(|((_, to), _)| *to == candidate)
            .map(|(_, delegation)| delegation.amount)
            .sum();
        assert_eq!(record.sum_delegation, sum);
        for ((delegator, to), _) in ledger.delegations() {
            if to == candidate {
                assert!(delegators.contains(&delegator));
            }
        }
    }
    // selection is a function of the ledger
    assert_eq!(ledger.select_validator_set(), ledger.select_validator_set());
}

#[test]
fn ledger_stays_consistent_over_a_long_run() {
    let mut ledger = Pallet::new(config()).unwrap();
    let mut escrow = Escrow::default();
    let mut seed: u64 = 0x2545_f491_4f6c_dd1d;
    let mut epoch = ledger.epoch_index();
    let mut accepted = 0;
    let mut refused = 0;
    for step in 0u64..3000 {
        seed ^= seed << 13;
        seed ^= seed >> 7;
        seed ^= seed << 17;
        let candidate = 1 + (seed >> 8) % 5;
        let delegator = 20 + (seed >> 16) % 4;
        let amount = ((seed >> 24) % 70) as u128;
        let before = (ledger.candidates(), ledger.delegations(), ledger.rewards());
        let outcome = match (seed >> 40) % 6 {
            0 => ledger.register_as_candidate(candidate, 40 + amount),
            1 | 2 => ledger.delegate(delegator, candidate, amount),
            3 => ledger.undelegate(delegator, candidate, amount),
            4 => {
                if (seed >> 48) % 4 == 0 {
                    ledger.unregister_as_candidate(candidate)
                } else {
                    ledger.claim_reward(if seed & 1 == 0 { candidate } else { delegator })
                }
            }
            _ => Ok(ledger.on_initialize::<DoNothing>(step, Some(candidate))),
        };
        match outcome {
            Ok(receipt) => {
                accepted += 1;
                escrow.carry_out(&receipt);
            }
            Err(_) => {
                refused += 1;
                // a refused call changes nothing
                assert_eq!(before, (ledger.candidates(), ledger.delegations(), ledger.rewards()));
            }
        }
        // the epoch index never falls and moves by one step at most
        assert!(ledger.epoch_index() == epoch || ledger.epoch_index() == epoch + 1);
        epoch = ledger.epoch_index();
        check(&ledger, &escrow);
    }
    assert!(accepted > 500);
    assert!(refused > 500);
    assert!(epoch > 50);
    assert!(escrow.minted > 0);
}

#[test]
fn everything_is_released_when_everybody_leaves() {
    let mut ledger = Pallet::new(config()).unwrap();
    let mut escrow = Escrow::default();
    escrow.carry_out(&ledger.register_as_candidate(1, 100).unwrap());
    escrow.carry_out(&ledger.register_as_candidate(2, 60).unwrap());
    escrow.carry_out(&ledger.delegate(20, 1, 10).unwrap());
    escrow.carry_out(&ledger.delegate(20, 2, 11).unwrap());
    escrow.carry_out(&ledger.delegate(21, 1, 12).unwrap());
    escrow.carry_out(&ledger.delegate(20, 1, 5).unwrap());
    assert_eq!(escrow.total(), 100 + 60 + 10 + 11 + 12 + 5);
    check(&ledger, &escrow);
    escrow.carry_out(&ledger.undelegate(21, 1, 12).unwrap());
    escrow.carry_out(&ledger.unregister_as_candidate(1).unwrap());
    assert_eq!(escrow.of(false, 20), 11);
    escrow.carry_out(&ledger.unregister_as_candidate(2).unwrap());
    assert_eq!(escrow.total(), 0);
    assert_eq!(recorded(&ledger), 0);
    check(&ledger, &escrow);
}
