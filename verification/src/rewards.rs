//! The reward engine: every block credits its author, and those who delegated to the author,
//! with a fixed share of the stakes frozen in the last snapshot.
use crate::pallet::Pallet;
use crate::state::State;
use crate::types::{AccountId, Balance};
use vstd::prelude::*;
use vstd::std_specs::iter::IteratorSpec;

verus! {

/// The share of a snapshotted stake that one block earns, in percent.
pub const REWARD_PERCENT: u8 = 5;

/// `percent` hundredths of `amount`, rounded to the nearest whole; a half is rounded down.
pub open spec fn percent_of(percent: u8, amount: Balance) -> Balance {
    if (amount * percent) % 100 > 50 {
        (amount * percent / 100 + 1) as Balance
    } else {
        (amount * percent / 100) as Balance
    }
}

/// What one block earns on a snapshotted stake.
pub open spec fn reward_for(stake: Balance) -> Balance {
    percent_of(REWARD_PERCENT, stake)
}

/// `amount` as a balance, capped at the largest one.
pub open spec fn capped(amount: int) -> Balance {
    if amount > Balance::MAX {
        Balance::MAX
    } else {
        amount as Balance
    }
}

/// Calls `sp_runtime::Percent::from_percent` and multiplies the result with `amount`
/// (`Percent`'s `Mul<N>`). For a percentage of at most 100 the product is
/// `amount / 100 * percent` plus the hundredths of `amount % 100 * percent`, one more if
/// their remainder is above 50: `percent` hundredths of `amount`, a half rounded down.
#[verifier::external_body]
fn percent_mul(percent: u8, amount: Balance) -> (part: Balance)
    requires
        percent <= 100,
    ensures
        part == percent_of(percent, amount),
{
    sp_runtime::Percent::from_percent(percent) * amount
}

/// Whether one of the first `n` items is the delegation of `pair`.
pub open spec fn seen(
    items: Seq<(&(AccountId, AccountId), &Balance)>,
    n: int,
    pair: (AccountId, AccountId),
) -> bool {
    exists|j: int| 0 <= j < n && *(#[trigger] items[j]).0 == pair
}

impl State {
    /// What a block of `author` adds to the reward of `who`, given the snapshotted stakes:
    /// the author earns on its own stake, and whoever delegated to the author earns on that
    /// delegation.
    pub open spec fn block_credit(self, author: AccountId, who: AccountId) -> int
        recommends
            self.snapshot is Some,
    {
        let epoch = self.snapshot->Some_0;
        (if who == author {
            reward_for(epoch.validators[author]) as int
        } else {
            0
        }) + (if epoch.delegations.contains_key((who, author)) {
            reward_for(epoch.delegations[(who, author)]) as int
        } else {
            0
        })
    }

    /// The ledger after the rewards of a block were credited. Nothing is credited for a
    /// block without author, before the first snapshot, or to an author that the snapshot
    /// does not hold as validator. Rewards stop growing at the largest balance.
    pub open spec fn rewarded(self, author: Option<AccountId>) -> State {
        if author is Some && self.snapshot is Some && self.snapshot->Some_0.validators.contains_key(
            author->Some_0,
        ) {
            let by = author->Some_0;
            let epoch = self.snapshot->Some_0;
            State {
                rewards: Map::new(
                    |who: AccountId|
                        self.rewards.contains_key(who) || who == by
                            || epoch.delegations.contains_key((who, by)),
                    |who: AccountId| capped(self.reward_of(who) + self.block_credit(by, who)),
                ),
                ..self
            }
        } else {
            self
        }
    }
}

impl Pallet {
    /// Credits the rewards of a block of `author`.
    pub(crate) fn execute_rewards(&mut self, author: Option<AccountId>)
        ensures
            final(self)@ == old(self)@.rewarded(author),
    {
        let by = match author {
            Some(by) => by,
            None => {
                return ;
            },
        };
        let epoch = match &self.last_epoch_snapshot {
            Some(epoch) => epoch,
            None => {
                return ;
            },
        };
        let stake = match epoch.validators.get(&by) {
            Some(stake) => *stake,
            None => {
                return ;
            },
        };
        let current = match self.rewards.get(&by) {
            Some(current) => *current,
            None => 0,
        };
        self.rewards.insert(by, current.saturating_add(percent_mul(REWARD_PERCENT, stake)));
        let ghost before = old(self)@;
        let ghost frozen = epoch@;
        for item in it: epoch.delegations.iter()
            invariant
                before == old(self)@,
                before.snapshot == Some(frozen),
                frozen.delegations == epoch.delegations@,
                frozen.validators.contains_key(by),
                it.seq() == epoch.delegations.iter().remaining(),
                it.seq().no_duplicates(),
                self@ == (State { rewards: self@.rewards, ..before }),
                forall|who: AccountId|
                    self@.rewards.contains_key(who) <==> (before.rewards.contains_key(who) || who
                        == by || seen(it.seq(), it.index(), (who, by))),
                forall|who: AccountId|
                    self@.rewards.contains_key(who) ==> #[trigger] self@.rewards[who] == capped(
                        before.reward_of(who) + (if who == by {
                            reward_for(frozen.validators[by]) as int
                        } else {
                            0
                        }) + (if seen(it.seq(), it.index(), (who, by)) {
                            reward_for(frozen.delegations[(who, by)]) as int
                        } else {
                            0
                        }),
                    ),
        {
            let ghost n = it.index();
            let ghost items = it.seq();
            let ((delegator, candidate), amount) = item;
            if *candidate == by {
                let current = match self.rewards.get(delegator) {
                    Some(current) => *current,
                    None => 0,
                };
                self.rewards.insert(
                    *delegator,
                    current.saturating_add(percent_mul(REWARD_PERCENT, *amount)),
                );
            }
            proof {
                assert forall|who: AccountId|
                    self@.rewards.contains_key(who) <==> (before.rewards.contains_key(who) || who
                        == by || seen(items, n + 1, (who, by))) by {
                    assert(seen(items, n + 1, (who, by)) <==> (seen(items, n, (who, by)) || (
                        who,
                        by,
                    ) == (*delegator, *candidate)));
                }
            }
        }
    }
}

} // verus!
