//! Laws that relate the operations of the map to each other, stated over the
//! map's view.

use vstd::prelude::*;
use crate::order::{total_order, is_least_key, is_greatest_key, lemma_lt_trichotomy};
use crate::ordered_map::OrderedMap;

verus! {

/// A change that `put` or `delete` makes to a map.
pub enum Change<K, V> {
    /// `put` of this key with this value.
    Put(K, V),
    /// `delete` of this key.
    Delete(K),
}

impl<K, V> Change<K, V> {
    /// The key that the change is about.
    pub open spec fn key(self) -> K {
        match self {
            Change::Put(k, _) => k,
            Change::Delete(k) => k,
        }
    }

    /// The view of a map after the change, given its view before.
    pub open spec fn apply(self, m: Map<K, V>) -> Map<K, V> {
        match self {
            Change::Put(k, v) => m.insert(k, v),
            Change::Delete(k) => m.remove(k),
        }
    }
}

/// The view of a map after a sequence of changes, first to last.
pub open spec fn replay<K, V>(m: Map<K, V>, changes: Seq<Change<K, V>>) -> Map<K, V>
    decreases changes.len(),
{
    if changes.len() == 0 {
        m
    } else {
        changes.last().apply(replay(m, changes.drop_last()))
    }
}

/// Round trip: after `put(k, v)`, and after any further `put`s and `delete`s
/// of other keys, `get(k)` finds `v`.
pub proof fn lemma_round_trip<K: Ord, V>(
    m: OrderedMap<K, V>,
    k: K,
    v: V,
    changes: Seq<Change<K, V>>,
)
    requires
        m.wf(),
        forall|i: int| 0 <= i < changes.len() ==> (#[trigger] changes[i]).key() != k,
    ensures
        replay(m@.insert(k, v), changes).contains_key(k),
        replay(m@.insert(k, v), changes)[k] == v,
    decreases changes.len(),
{
    if changes.len() > 0 {
        lemma_round_trip(m, k, v, changes.drop_last());
        assert(changes.last() == changes[changes.len() - 1]);
    }
}

/// Idempotent delete: `delete` of a key that the map does not hold changes
/// neither the pairs nor their number.
pub proof fn lemma_delete_absent<K: Ord, V>(m: OrderedMap<K, V>, k: K)
    requires
        m.wf(),
        !m@.contains_key(k),
    ensures
        m@.remove(k) == m@,
        m@.remove(k).len() == m@.len(),
{
    assert(m@.remove(k) =~= m@);
}

/// Overwrite: a second `put` of the same key replaces the value and leaves
/// the number of pairs as it was.
pub proof fn lemma_overwrite<K: Ord, V>(m: OrderedMap<K, V>, k: K, v1: V, v2: V)
    requires
        m.wf(),
    ensures
        m@.insert(k, v1).insert(k, v2).contains_key(k),
        m@.insert(k, v1).insert(k, v2)[k] == v2,
        m@.insert(k, v1).insert(k, v2).len() == m@.insert(k, v1).len(),
        m@.insert(k, v1).insert(k, v2) == m@.insert(k, v2),
{
    m.lemma_finite();
    assert(m@.insert(k, v1).insert(k, v2).dom() =~= m@.insert(k, v1).dom());
    assert(m@.insert(k, v1).insert(k, v2) =~= m@.insert(k, v2));
}

/// A map has at most one least key, so `delete_min` and `min` speak of the
/// same key.
pub proof fn lemma_least_key_unique<K: Ord, V>(m: Map<K, V>, a: K, b: K)
    requires
        total_order::<K>(),
        is_least_key(m, a),
        is_least_key(m, b),
    ensures
        a == b,
{
    lemma_lt_trichotomy(a, b);
}

/// A map has at most one greatest key, so `delete_max` and `max` speak of the
/// same key.
pub proof fn lemma_greatest_key_unique<K: Ord, V>(m: Map<K, V>, a: K, b: K)
    requires
        total_order::<K>(),
        is_greatest_key(m, a),
        is_greatest_key(m, b),
    ensures
        a == b,
{
    lemma_lt_trichotomy(a, b);
}

} // verus!
