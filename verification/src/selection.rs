//! Validator selection: the best staked candidates, in a fixed order.
use crate::listing::entries_of;
use crate::models::Candidate;
use crate::pallet::Pallet;
use crate::state::State;
use crate::types::{AccountId, Balance, TopCandidateVec};
use vstd::prelude::*;

verus! {

/// A ranked candidate: its account, its bond and its total stake.
pub type Entry = (AccountId, Balance, Balance);

/// The entry under which a candidate is ranked.
pub open spec fn entry_of(account: AccountId, candidate: Candidate) -> Entry {
    (account, candidate.bond, candidate.spec_total())
}

/// The order of the ranking: the larger total stake comes first, and of two equal stakes the
/// smaller account. No two entries with different accounts tie.
pub open spec fn ranks_before(a: Entry, b: Entry) -> bool {
    a.2 > b.2 || (a.2 == b.2 && a.0 < b.0)
}

/// Whether one of the entries is that of `account`.
pub open spec fn has_account(set: Seq<Entry>, account: AccountId) -> bool {
    exists|i: int| 0 <= i < set.len() && (#[trigger] set[i]).0 == account
}

/// Whether every entry of `set` ranks before `other`.
pub open spec fn all_rank_before(set: Seq<Entry>, other: Entry) -> bool {
    forall|i: int| 0 <= i < set.len() ==> ranks_before(#[trigger] set[i], other)
}

/// Whether `set` holds the best ranked candidates of `pool`, best first: as many as `limit`
/// allows, each with its entry, in the order of the ranking, and ranking before every
/// candidate that was left out.
pub open spec fn is_ranking(pool: Map<AccountId, Candidate>, limit: nat, set: Seq<Entry>) -> bool {
    &&& set.len() == if pool.len() <= limit {
        pool.len()
    } else {
        limit
    }
    &&& forall|i: int|
        0 <= i < set.len() ==> pool.contains_key((#[trigger] set[i]).0) && set[i] == entry_of(
            set[i].0,
            pool[set[i].0],
        )
    &&& forall|i: int, j: int|
        0 <= i < j < set.len() ==> ranks_before(#[trigger] set[i], #[trigger] set[j])
    &&& forall|account: AccountId|
        #![trigger pool.contains_key(account)]
        pool.contains_key(account) && !has_account(set, account) ==> all_rank_before(
            set,
            entry_of(account, pool[account]),
        )
}

impl State {
    /// Whether `set` is the validator set that the candidate pool gives: nobody if the pool
    /// has fewer candidates than the configured minimum, else the best ranked candidates, at
    /// most as many as the configured maximum.
    pub open spec fn is_selection(self, set: Seq<Entry>) -> bool {
        if self.candidates.len() < self.config.min_validators {
            set.len() == 0
        } else {
            is_ranking(self.candidates, self.config.max_validators as nat, set)
        }
    }
}

/// Two rankings of one pool that agree on their first `k` entries cannot differ at the next
/// one, with that of `a` ranking before that of `b`.
proof fn lemma_no_rank_conflict(
    pool: Map<AccountId, Candidate>,
    limit: nat,
    a: Seq<Entry>,
    b: Seq<Entry>,
    k: int,
)
    requires
        is_ranking(pool, limit, a),
        is_ranking(pool, limit, b),
        0 <= k < a.len(),
        forall|i: int| 0 <= i < k ==> a[i] == b[i],
    ensures
        !ranks_before(a[k], b[k]),
{
    if ranks_before(a[k], b[k]) {
        let account = a[k].0;
        assert(pool.contains_key(account));
        if has_account(b, account) {
            let j = choose|j: int| 0 <= j < b.len() && (#[trigger] b[j]).0 == account;
            assert(b[j] == a[k]);
            if j < k {
                assert(a[j] == b[j]);
                assert(ranks_before(a[j], a[k]));
            } else if j > k {
                assert(ranks_before(b[k], b[j]));
            }
        } else {
            assert(all_rank_before(b, entry_of(account, pool[account])));
            assert(ranks_before(b[k], a[k]));
        }
    }
}

/// Two rankings of one pool agree on their first `n` entries.
proof fn lemma_ranking_prefix(
    pool: Map<AccountId, Candidate>,
    limit: nat,
    a: Seq<Entry>,
    b: Seq<Entry>,
    n: nat,
)
    requires
        is_ranking(pool, limit, a),
        is_ranking(pool, limit, b),
        n <= a.len(),
    ensures
        forall|i: int| 0 <= i < n ==> a[i] == b[i],
    decreases n,
{
    if n > 0 {
        lemma_ranking_prefix(pool, limit, a, b, (n - 1) as nat);
        let k = n - 1;
        lemma_no_rank_conflict(pool, limit, a, b, k);
        lemma_no_rank_conflict(pool, limit, b, a, k);
        assert(pool.contains_key(a[k].0));
        assert(pool.contains_key(b[k].0));
    }
}

/// A pool has one ranking only.
pub proof fn lemma_ranking_unique(
    pool: Map<AccountId, Candidate>,
    limit: nat,
    a: Seq<Entry>,
    b: Seq<Entry>,
)
    requires
        is_ranking(pool, limit, a),
        is_ranking(pool, limit, b),
    ensures
        a == b,
{
    lemma_ranking_prefix(pool, limit, a, b, a.len());
}

/// Selection is a function of the ledger: whatever is selected from one ledger is the same
/// validator set, in the same order.
pub proof fn lemma_selection_unique(s: State, a: Seq<Entry>, b: Seq<Entry>)
    requires
        s.is_selection(a),
        s.is_selection(b),
    ensures
        a == b,
{
    if s.candidates.len() >= s.config.min_validators {
        lemma_ranking_unique(s.candidates, s.config.max_validators as nat, a, b);
    }
}

/// Tells whether `a` ranks before `b`.
fn outranks(a: &Entry, b: &Entry) -> (r: bool)
    ensures
        r == ranks_before(*a, *b),
{
    a.2 > b.2 || (a.2 == b.2 && a.0 < b.0)
}

impl Pallet {
    /// The entry of every candidate of the pool, by increasing account.
    fn pool_entries(&self) -> (entries: TopCandidateVec)
        ensures
            entries@.len() == self@.candidates.len(),
            forall|i: int|
                0 <= i < entries@.len() ==> self@.candidates.contains_key(#[trigger] entries@[i].0)
                    && entries@[i] == entry_of(entries@[i].0, self@.candidates[entries@[i].0]),
            forall|i: int, j: int|
                0 <= i < j < entries@.len() ==> entries@[i].0 != entries@[j].0,
            forall|a: AccountId| #[trigger]
                self@.candidates.contains_key(a) ==> exists|i: int|
                    0 <= i < entries@.len() && entries@[i].0 == a,
    {
        let listed = entries_of(&self.candidate_pool);
        let mut entries: TopCandidateVec = Vec::new();
        let mut i: usize = 0;
        while i < listed.len()
            invariant
                i <= listed.len(),
                entries@.len() == i,
                forall|j: int|
                    0 <= j < i ==> #[trigger] entries@[j] == entry_of(listed@[j].0, listed@[j].1),
            decreases listed.len() - i,
        {
            let (account, candidate) = listed[i];
            entries.push((account, candidate.bond, candidate.total()));
            i = i + 1;
        }
        proof {
            let pool = self@.candidates;
            assert forall|a: AccountId| #[trigger] pool.contains_key(a) implies exists|i: int|
                0 <= i < entries@.len() && entries@[i].0 == a by {
                let i = choose|i: int| 0 <= i < listed@.len() && (#[trigger] listed@[i]).0 == a;
                assert(entries@[i] == entry_of(listed@[i].0, listed@[i].1));
            }
        }
        entries
    }
    /// Selects the validator set of the next epoch from the candidate pool: the best ranked
    /// candidates, best first, at most as many as the configuration allows, and nobody if
    /// the pool has fewer candidates than the configured minimum.
    pub fn select_validator_set(&self) -> (set: TopCandidateVec)
        ensures
            self@.is_selection(set@),
    {
        let mut set: TopCandidateVec = Vec::new();
        if self.candidate_count() < self.config.min_validators as usize {
            return set;
        }
        let limit = self.config.max_validators as usize;
        let mut rest = self.pool_entries();
        let ghost pool = self@.candidates;
        while set.len() < limit && rest.len() > 0
            invariant
                pool == self@.candidates,
                set@.len() + rest@.len() == pool.len(),
                set@.len() <= limit,
                forall|i: int|
                    0 <= i < set@.len() ==> pool.contains_key((#[trigger] set@[i]).0) && set@[i]
                        == entry_of(set@[i].0, pool[set@[i].0]),
                forall|i: int|
                    0 <= i < rest@.len() ==> pool.contains_key((#[trigger] rest@[i]).0)
                        && rest@[i] == entry_of(rest@[i].0, pool[rest@[i].0]),
                forall|i: int, j: int|
                    0 <= i < j < rest@.len() ==> (#[trigger] rest@[i]).0 != (#[trigger] rest@[j]).0,
                forall|account: AccountId| #[trigger]
                    pool.contains_key(account) ==> has_account(set@, account) || has_account(
                        rest@,
                        account,
                    ),
                forall|i: int, j: int|
                    0 <= i < j < set@.len() ==> ranks_before(
                        #[trigger] set@[i],
                        #[trigger] set@[j],
                    ),
                forall|i: int, j: int|
                    0 <= i < set@.len() && 0 <= j < rest@.len() ==> ranks_before(
                        #[trigger] set@[i],
                        #[trigger] rest@[j],
                    ),
            decreases rest@.len(),
        {
            let mut best: usize = 0;
            let mut next: usize = 1;
            while next < rest.len()
                invariant
                    0 <= best < next <= rest@.len(),
                    forall|i: int, j: int|
                        0 <= i < j < rest@.len() ==> (#[trigger] rest@[i]).0 != (
                        #[trigger] rest@[j]).0,
                    forall|m: int|
                        0 <= m < next && m != best ==> ranks_before(
                            rest@[best as int],
                            #[trigger] rest@[m],
                        ),
                decreases rest@.len() - next,
            {
                if outranks(&rest[next], &rest[best]) {
                    best = next;
                }
                next = next + 1;
            }
            let ghost before = rest@;
            let ghost chosen_before = set@;
            let chosen = rest.remove(best);
            set.push(chosen);
            proof {
                assert forall|account: AccountId| #[trigger]
                    pool.contains_key(account) implies has_account(set@, account) || has_account(
                    rest@,
                    account,
                ) by {
                    if has_account(chosen_before, account) {
                        let i = choose|i: int|
                            0 <= i < chosen_before.len() && (#[trigger] chosen_before[i]).0
                                == account;
                        assert(set@[i].0 == account);
                    } else {
                        let m = choose|m: int|
                            0 <= m < before.len() && (#[trigger] before[m]).0 == account;
                        if m == best {
                            assert(set@[set@.len() - 1].0 == account);
                        } else if m < best {
                            assert(rest@[m].0 == account);
                        } else {
                            assert(rest@[m - 1].0 == account);
                        }
                    }
                }
            }
        }
        set
    }
}

} // verus!
