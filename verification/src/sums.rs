//! Sums over the values of finite maps.
use vstd::prelude::*;

verus! {

/// The sum of the values of a finite map.
pub open spec fn total<K>(m: Map<K, nat>) -> nat
    decreases m.dom().len(),
    when m.dom().finite()
{
    if m.dom().len() == 0 {
        0
    } else {
        let k = m.dom().choose();
        m[k] + total(m.remove(k))
    }
}

/// The sum is the value of any one key plus the sum of the rest.
pub proof fn lemma_total_remove<K>(m: Map<K, nat>, key: K)
    requires
        m.dom().finite(),
        m.contains_key(key),
    ensures
        total(m) == m[key] + total(m.remove(key)),
    decreases m.dom().len(),
{
    let k = m.dom().choose();
    if k != key {
        lemma_total_remove(m.remove(k), key);
        lemma_total_remove(m.remove(key), k);
        assert(m.remove(k).remove(key) =~= m.remove(key).remove(k));
    }
}

/// Setting the value of a key changes the sum by the difference to the value that the key
/// had, or to zero if it had none.
pub proof fn lemma_total_insert<K>(m: Map<K, nat>, key: K, value: nat)
    requires
        m.dom().finite(),
    ensures
        total(m.insert(key, value)) + (if m.contains_key(key) {
            m[key]
        } else {
            0
        }) == total(m) + value,
{
    let after = m.insert(key, value);
    lemma_total_remove(after, key);
    if m.contains_key(key) {
        lemma_total_remove(m, key);
        assert(after.remove(key) =~= m.remove(key));
    } else {
        assert(after.remove(key) =~= m);
    }
}

} // verus!
