//! The list of delegators of one candidate: account identifiers in strictly increasing
//! order, so that a delegator is found by bisection and the list is walked in one fixed order.
use crate::types::AccountId;
use vstd::prelude::*;

verus! {

/// Each element is smaller than those after it.
pub open spec fn strictly_increasing(s: Seq<AccountId>) -> bool {
    forall|i: int, j: int| 0 <= i < j < s.len() ==> s[i] < s[j]
}

/// In an increasing list, the index of the first element that is not below `x`: where `x`
/// stands, or where it has to be inserted.
pub open spec fn insertion_point(s: Seq<AccountId>, x: AccountId) -> int
    decreases s.len(),
{
    if s.len() == 0 || s.last() < x {
        s.len() as int
    } else {
        insertion_point(s.drop_last(), x)
    }
}

/// The list with `x` in it.
pub open spec fn with_delegator(s: Seq<AccountId>, x: AccountId) -> Seq<AccountId> {
    if s.contains(x) {
        s
    } else {
        s.insert(insertion_point(s, x), x)
    }
}

/// The list without `x`.
pub open spec fn without_delegator(s: Seq<AccountId>, x: AccountId) -> Seq<AccountId> {
    if s.contains(x) {
        s.remove(insertion_point(s, x))
    } else {
        s
    }
}

/// In an increasing list the insertion point splits the elements below `x` from the others.
pub proof fn lemma_insertion_point(s: Seq<AccountId>, x: AccountId)
    requires
        strictly_increasing(s),
    ensures
        0 <= insertion_point(s, x) <= s.len(),
        forall|j: int| 0 <= j < insertion_point(s, x) ==> s[j] < x,
        forall|j: int| insertion_point(s, x) <= j < s.len() ==> s[j] >= x,
        s.contains(x) <==> (insertion_point(s, x) < s.len() && s[insertion_point(s, x)] == x),
    decreases s.len(),
{
    if s.len() == 0 || s.last() < x {
        assert forall|j: int| 0 <= j < s.len() implies s[j] < x by {
            if j < s.len() - 1 {
                assert(s[j] < s[s.len() - 1]);
            }
        }
    } else {
        let t = s.drop_last();
        assert(strictly_increasing(t)) by {
            assert forall|i: int, j: int| 0 <= i < j < t.len() implies t[i] < t[j] by {
                assert(s[i] < s[j]);
            }
        }
        lemma_insertion_point(t, x);
        let p = insertion_point(t, x);
        assert forall|j: int| 0 <= j < p implies s[j] < x by {
            assert(t[j] < x);
        }
        assert forall|j: int| p <= j < s.len() implies s[j] >= x by {
            if j < t.len() {
                assert(t[j] >= x);
            }
        }
        if p < t.len() {
            assert(s[p] == t[p]);
        }
        if s.contains(x) {
            let k = choose|k: int| 0 <= k < s.len() && s[k] == x;
            if k < p {
                assert(s[k] < x);
            }
            if k > p {
                assert(s[p] < s[k]);
            }
        }
    }
}

/// Only one index splits an increasing list around `x`.
pub proof fn lemma_insertion_point_unique(s: Seq<AccountId>, x: AccountId, p: int)
    requires
        strictly_increasing(s),
        0 <= p <= s.len(),
        forall|j: int| 0 <= j < p ==> s[j] < x,
        forall|j: int| p <= j < s.len() ==> s[j] >= x,
    ensures
        p == insertion_point(s, x),
{
    lemma_insertion_point(s, x);
    let q = insertion_point(s, x);
    if p < q {
        assert(s[p] < x);
    }
    if q < p {
        assert(s[q] < x);
    }
}

/// Adding a delegator keeps the order, adds that one member and no other, and lengthens the
/// list by one unless the delegator was in it.
pub proof fn lemma_with_delegator(s: Seq<AccountId>, x: AccountId)
    requires
        strictly_increasing(s),
    ensures
        strictly_increasing(with_delegator(s, x)),
        forall|y: AccountId| with_delegator(s, x).contains(y) <==> (s.contains(y) || y == x),
        with_delegator(s, x).len() == if s.contains(x) {
            s.len()
        } else {
            s.len() + 1
        },
{
    lemma_insertion_point(s, x);
    let p = insertion_point(s, x);
    let t = with_delegator(s, x);
    if !s.contains(x) {
        assert(t.len() == s.len() + 1);
        assert(t[p] == x);
        assert forall|i: int, j: int| 0 <= i < j < t.len() implies t[i] < t[j] by {
            let a = if i < p {
                i
            } else {
                i - 1
            };
            let b = if j < p {
                j
            } else {
                j - 1
            };
            if i != p {
                assert(t[i] == s[a]);
            }
            if j != p {
                assert(t[j] == s[b]);
            }
            if i != p && j != p {
                assert(s[a] < s[b]);
            } else if i == p {
                assert(s[b] >= x);
                assert(s.contains(s[b]));
            } else {
                assert(s[a] < x);
            }
        }
        assert forall|y: AccountId| t.contains(y) implies (s.contains(y) || y == x) by {
            let k = choose|k: int| 0 <= k < t.len() && t[k] == y;
            if k < p {
                assert(s[k] == y);
            } else if k > p {
                assert(s[k - 1] == y);
            }
        }
        assert forall|y: AccountId| (s.contains(y) || y == x) implies t.contains(y) by {
            if y == x {
                assert(t[p] == y);
            } else {
                let k = choose|k: int| 0 <= k < s.len() && s[k] == y;
                if k < p {
                    assert(t[k] == y);
                } else {
                    assert(t[k + 1] == y);
                }
            }
        }
    }
}

/// Removing a delegator keeps the order, removes that one member and no other, and shortens
/// the list by one if the delegator was in it.
pub proof fn lemma_without_delegator(s: Seq<AccountId>, x: AccountId)
    requires
        strictly_increasing(s),
    ensures
        strictly_increasing(without_delegator(s, x)),
        forall|y: AccountId| without_delegator(s, x).contains(y) <==> (s.contains(y) && y != x),
        without_delegator(s, x).len() == if s.contains(x) {
            s.len() - 1
        } else {
            s.len() as int
        },
{
    lemma_insertion_point(s, x);
    let p = insertion_point(s, x);
    let t = without_delegator(s, x);
    if s.contains(x) {
        assert(t.len() == s.len() - 1);
        assert forall|i: int, j: int| 0 <= i < j < t.len() implies t[i] < t[j] by {
            let a = if i < p {
                i
            } else {
                i + 1
            };
            let b = if j < p {
                j
            } else {
                j + 1
            };
            assert(t[i] == s[a]);
            assert(t[j] == s[b]);
            assert(s[a] < s[b]);
        }
        assert forall|y: AccountId| t.contains(y) implies (s.contains(y) && y != x) by {
            let k = choose|k: int| 0 <= k < t.len() && t[k] == y;
            if k < p {
                assert(s[k] == y);
                assert(s[k] < s[p]);
            } else {
                assert(s[k + 1] == y);
                assert(s[p] < s[k + 1]);
            }
        }
        assert forall|y: AccountId| (s.contains(y) && y != x) implies t.contains(y) by {
            let k = choose|k: int| 0 <= k < s.len() && s[k] == y;
            if k < p {
                assert(t[k] == y);
            } else {
                assert(t[k - 1] == y);
            }
        }
    }
}

/// A member of the first `n + 1` elements is a member of the first `n` or is the one after.
pub proof fn lemma_take_next(list: Seq<AccountId>, n: int, x: AccountId)
    requires
        0 <= n < list.len(),
    ensures
        list.take(n + 1).contains(x) <==> (list.take(n).contains(x) || x == list[n]),
{
    let longer = list.take(n + 1);
    let shorter = list.take(n);
    if longer.contains(x) {
        let k = choose|k: int| 0 <= k < longer.len() && longer[k] == x;
        if k < n {
            assert(shorter[k] == x);
        }
    }
    if shorter.contains(x) {
        let k = choose|k: int| 0 <= k < shorter.len() && shorter[k] == x;
        assert(longer[k] == x);
    }
    if x == list[n] {
        assert(longer[n] == x);
    }
}

/// Looks `x` up by bisection. `Ok` holds the index at which `x` stands, `Err` the index at
/// which it has to be inserted to keep the order.
pub fn search(list: &Vec<AccountId>, x: AccountId) -> (r: Result<usize, usize>)
    requires
        strictly_increasing(list@),
    ensures
        match r {
            Ok(at) => list@.contains(x) && at == insertion_point(list@, x),
            Err(at) => !list@.contains(x) && at == insertion_point(list@, x),
        },
{
    let mut low: usize = 0;
    let mut high: usize = list.len();
    while low < high
        invariant
            strictly_increasing(list@),
            0 <= low <= high <= list.len(),
            forall|j: int| 0 <= j < low ==> list@[j] < x,
            forall|j: int| high <= j < list.len() ==> list@[j] >= x,
        decreases high - low,
    {
        let mid: usize = low + (high - low) / 2;
        if list[mid] < x {
            low = mid + 1;
        } else {
            high = mid;
        }
    }
    proof {
        lemma_insertion_point_unique(list@, x, low as int);
        lemma_insertion_point(list@, x);
    }
    if low < list.len() && list[low] == x {
        Ok(low)
    } else {
        Err(low)
    }
}

/// Puts `x` into the list, unless it is there, and tells whether it was added.
pub fn insert(list: &mut Vec<AccountId>, x: AccountId) -> (added: bool)
    requires
        strictly_increasing(old(list)@),
    ensures
        final(list)@ == with_delegator(old(list)@, x),
        added == !old(list)@.contains(x),
{
    match search(list, x) {
        Ok(_) => false,
        Err(at) => {
            proof {
                lemma_insertion_point(list@, x);
            }
            list.insert(at, x);
            true
        },
    }
}

/// Takes `x` out of the list, if it is there, and tells whether it was.
pub fn remove(list: &mut Vec<AccountId>, x: AccountId) -> (removed: bool)
    requires
        strictly_increasing(old(list)@),
    ensures
        final(list)@ == without_delegator(old(list)@, x),
        removed == old(list)@.contains(x),
{
    match search(list, x) {
        Ok(at) => {
            proof {
                lemma_insertion_point(list@, x);
            }
            list.remove(at);
            true
        },
        Err(_) => false,
    }
}

} // verus!
