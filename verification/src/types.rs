use vstd::prelude::*;

verus! {

/// Identifier of an account.
pub type AccountId = u64;

/// Amount of tokens.
pub type Balance = u128;

/// Height of a block.
pub type BlockNumber = u64;

/// Ranked candidates as `(account, bond, total stake)`.
pub type TopCandidateVec = Vec<(AccountId, Balance, Balance)>;

/// Why an operation of the ledger was refused.
#[derive(Clone, Copy, Debug, PartialEq, Eq)]
pub enum Error {
    /// The candidate pool is full, or a reported validator set is not below the limit.
    TooManyValidators,
    /// An amount of zero was given.
    InvalidZeroAmount,
    /// The delegator already backs the largest allowed number of candidates.
    TooManyCandidateDelegations,
    /// The candidate's list of delegators is full.
    TooManyDelegatorsInPool,
    /// The account is already a candidate.
    CandidateAlreadyExist,
    /// The account is not a candidate.
    CandidateDoesNotExist,
    /// The delegator has nothing delegated to the candidate, or the ledger lost track of it.
    DelegationDoesNotExist,
    /// The delegation would fall below the smallest allowed amount.
    BelowMinimumDelegateAmount,
    /// The bond is below the smallest allowed bond.
    BelowMinimumCandidateBond,
    /// The account has no reward to claim.
    NoClaimableRewardFound,
    /// More was asked back than is delegated.
    InvalidMinimumDelegateAmount,
    /// An amount left the range of the balance type.
    Overflow,
    /// The configuration allows no validator, or its epochs have no length.
    InvalidConfiguration,
}

/// What the ledger has recorded, for the host to publish.
#[derive(Clone, Copy, Debug, PartialEq, Eq)]
pub enum Event {
    /// A candidate joined the pool.
    CandidateRegistered { candidate_id: AccountId, initial_bond: Balance },
    /// A candidate left the pool.
    CandidateRegistrationRemoved { candidate_id: AccountId },
    /// A delegator put `amount` behind a candidate, who now holds `total_delegated_amount`
    /// in delegations.
    CandidateDelegated {
        candidate_id: AccountId,
        delegated_by: AccountId,
        amount: Balance,
        total_delegated_amount: Balance,
    },
    /// A delegator took `amount` back from a candidate and keeps `left_delegated_amount` there.
    CandidateUndelegated {
        candidate_id: AccountId,
        delegator: AccountId,
        amount: Balance,
        left_delegated_amount: Balance,
    },
    /// An epoch ended at block `at_block`.
    NextEpochMoved {
        last_epoch: u32,
        next_epoch: u32,
        at_block: BlockNumber,
        total_candidates: u64,
        total_validators: u64,
    },
    /// Accrued rewards were paid out.
    RewardClaimed { claimer: AccountId, total_reward: Balance },
}

/// The two purposes for which the ledger has funds held.
#[derive(Clone, Copy, Debug, PartialEq, Eq)]
pub enum HoldReason {
    /// The bond of a candidate.
    CandidateBondReserved,
    /// An amount delegated to a candidate.
    DelegateAmountReserved,
}

/// An instruction to the host's balances.
#[derive(Clone, Copy, Debug, PartialEq, Eq)]
pub enum BalanceCommand {
    /// Put `amount` of `who` on hold.
    Hold { reason: HoldReason, who: AccountId, amount: Balance },
    /// Release `amount` of what is held of `who`.
    Release { reason: HoldReason, who: AccountId, amount: Balance },
    /// Create `amount` in the account of `who`.
    Mint { who: AccountId, amount: Balance },
}

impl BalanceCommand {
    /// By how much carrying out the command changes the funds on hold.
    pub open spec fn held_change(self) -> int {
        match self {
            BalanceCommand::Hold { amount, .. } => amount as int,
            BalanceCommand::Release { amount, .. } => -(amount as int),
            BalanceCommand::Mint { .. } => 0,
        }
    }
}

impl BalanceCommand {
    /// By how much carrying out the command changes what is held of `who` for `reason`.
    pub open spec fn held_change_of(self, reason: HoldReason, who: AccountId) -> int {
        match self {
            BalanceCommand::Hold { reason: r, who: w, amount } => if r == reason && w == who {
                amount as int
            } else {
                0
            },
            BalanceCommand::Release { reason: r, who: w, amount } => if r == reason && w == who {
                -(amount as int)
            } else {
                0
            },
            BalanceCommand::Mint { .. } => 0,
        }
    }
}

/// By how much carrying out `commands` changes what is held of `who` for `reason`.
pub open spec fn held_change_of(
    commands: Seq<BalanceCommand>,
    reason: HoldReason,
    who: AccountId,
) -> int
    decreases commands.len(),
{
    if commands.len() == 0 {
        0
    } else {
        held_change_of(commands.drop_last(), reason, who) + commands.last().held_change_of(
            reason,
            who,
        )
    }
}

/// By how much carrying out `commands` changes the funds on hold.
pub open spec fn held_change(commands: Seq<BalanceCommand>) -> int
    decreases commands.len(),
{
    if commands.len() == 0 {
        0
    } else {
        held_change(commands.drop_last()) + commands.last().held_change()
    }
}

/// What a successful operation leaves for the host.
#[derive(Clone, Debug, PartialEq, Eq)]
pub struct Receipt {
    /// What to do with balances, in the order in which it is to be done.
    pub commands: Vec<BalanceCommand>,
    /// What to publish.
    pub events: Vec<Event>,
    /// The accounts of the validator set that the operation has reported, if it has
    /// reported one.
    pub reported: Option<Vec<AccountId>>,
}

/// A receipt as sequences.
#[verifier::ext_equal]
pub struct ReceiptView {
    pub commands: Seq<BalanceCommand>,
    pub events: Seq<Event>,
    pub reported: Option<Seq<AccountId>>,
}

impl View for Receipt {
    type V = ReceiptView;

    open spec fn view(&self) -> ReceiptView {
        ReceiptView {
            commands: self.commands@,
            events: self.events@,
            reported: match self.reported {
                Some(accounts) => Some(accounts@),
                None => None,
            },
        }
    }
}

impl ReceiptView {
    /// The receipt that asks for nothing.
    pub open spec fn empty() -> ReceiptView {
        ReceiptView { commands: Seq::empty(), events: Seq::empty(), reported: None }
    }

    /// This receipt followed by `next`: the commands and events of both, and the validator
    /// set that was reported last.
    pub open spec fn followed_by(self, next: ReceiptView) -> ReceiptView {
        ReceiptView {
            commands: self.commands + next.commands,
            events: self.events + next.events,
            reported: if next.reported is Some {
                next.reported
            } else {
                self.reported
            },
        }
    }
}

impl Receipt {
    /// A receipt that asks for nothing.
    pub fn new() -> (receipt: Receipt)
        ensures
            receipt@ == ReceiptView::empty(),
    {
        Receipt { commands: Vec::new(), events: Vec::new(), reported: None }
    }

    /// Puts what `next` asks for behind what this receipt asks for.
    pub fn append(&mut self, next: Receipt)
        ensures
            final(self)@ == old(self)@.followed_by(next@),
    {
        let mut next = next;
        self.commands.append(&mut next.commands);
        self.events.append(&mut next.events);
        match next.reported {
            Some(accounts) => {
                self.reported = Some(accounts);
            },
            None => {},
        }
    }
}

} // verus!
