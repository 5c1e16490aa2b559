//! Maps laid out as lists, for whoever has to store the ledger or to walk through it.
use std::collections::BTreeMap;
use vstd::prelude::*;
use vstd::std_specs::btree::{increasing_seq, key_obeys_cmp_spec};
use vstd::std_specs::iter::IteratorSpec;

verus! {

/// Whether `entries` lists the map `m`: every key of `m` once, with its value, and nothing
/// else.
pub open spec fn is_listing<K, V>(entries: Seq<(K, V)>, m: Map<K, V>) -> bool {
    &&& entries.len() == m.len()
    &&& forall|i: int|
        0 <= i < entries.len() ==> m.contains_key((#[trigger] entries[i]).0) && m[entries[i].0]
            == entries[i].1
    &&& forall|i: int, j: int|
        0 <= i < j < entries.len() ==> (#[trigger] entries[i]).0 != (#[trigger] entries[j]).0
    &&& forall|k: K| #[trigger]
        m.contains_key(k) ==> exists|i: int|
            0 <= i < entries.len() && (#[trigger] entries[i]).0 == k
}

/// The entries of `m`, in the increasing order of its keys.
pub fn entries_of<K: Copy, V: Copy>(m: &BTreeMap<K, V>) -> (entries: Vec<(K, V)>)
    requires
        key_obeys_cmp_spec::<K>(),
    ensures
        is_listing(entries@, m@),
        increasing_seq(entries@.map_values(|entry: (K, V)| entry.0)),
{
    let mut entries: Vec<(K, V)> = Vec::new();
    for item in it: m.iter()
        invariant
            entries@.len() == it.index(),
            it.seq() == m.iter().remaining(),
            forall|j: int|
                0 <= j < it.index() ==> #[trigger] entries@[j] == (*it.seq()[j].0, *it.seq()[j].1),
    {
        let (key, value) = item;
        entries.push((*key, *value));
    }
    proof {
        let all = m.iter().remaining();
        assert(entries@.map_values(|entry: (K, V)| entry.0) =~= all.map_values(
            |kv: (&K, &V)| *kv.0,
        ));
        assert forall|i: int, j: int| 0 <= i < j < entries@.len() implies (
        #[trigger] entries@[i]).0 != (#[trigger] entries@[j]).0 by {
            assert(m@[*all[j].0] == *all[j].1);
        }
        assert forall|k: K| #[trigger] m@.contains_key(k) implies exists|i: int|
            0 <= i < entries@.len() && (#[trigger] entries@[i]).0 == k by {
            let i = choose|i: int| 0 <= i < all.len() && all[i] == (&k, &m@[k]);
            assert(entries@[i].0 == k);
        }
    }
    entries
}

} // verus!
