//! The laws a key type has to obey, and the facts about its order that the
//! tree proofs rest on.

use vstd::prelude::*;
use vstd::laws_cmp::obeys_cmp;
use vstd::laws_eq::obeys_concrete_eq;
use core::cmp::Ordering;
use vstd::std_specs::cmp::{OrdSpec, PartialOrdSpec, PartialEqSpec};

verus! {

/// `K`'s comparison is a total order whose `Equal` coincides with equality of
/// values: `cmp`, `partial_cmp` and `eq` compute what `cmp_spec`,
/// `partial_cmp_spec` and `eq_spec` say, these agree with each other, and they
/// obey the laws of an order.
pub open spec fn total_order<K: Ord>() -> bool {
    obeys_cmp::<K>() && obeys_concrete_eq::<K>()
}

/// `a` is strictly below `b` in `K`'s order.
pub open spec fn key_lt<K: Ord>(a: K, b: K) -> bool {
    a.cmp_spec(&b) == Ordering::Less
}

/// `k` is a key of `m` and no key of `m` is below it.
pub open spec fn is_least_key<K: Ord, V>(m: Map<K, V>, k: K) -> bool {
    m.contains_key(k) && forall|j: K| #[trigger] m.contains_key(j) ==> j == k || key_lt(k, j)
}

/// `k` is a key of `m` and no key of `m` is above it.
pub open spec fn is_greatest_key<K: Ord, V>(m: Map<K, V>, k: K) -> bool {
    m.contains_key(k) && forall|j: K| #[trigger] m.contains_key(j) ==> j == k || key_lt(j, k)
}

/// Each element of `s` is strictly below all that follow it.
pub open spec fn ascending<K: Ord>(s: Seq<K>) -> bool {
    forall|i: int, j: int| 0 <= i < j < s.len() ==> key_lt(#[trigger] s[i], #[trigger] s[j])
}

/// The keys that the references in `s` point to.
pub open spec fn pointees<K>(s: Seq<&K>) -> Seq<K> {
    s.map_values(|k: &K| *k)
}

/// Unfolds `total_order` into the quantified facts that proofs use.
pub proof fn lemma_total_order<K: Ord>()
    requires
        total_order::<K>(),
    ensures
        K::obeys_cmp_spec(),
        forall|a: K, b: K| #[trigger] a.cmp_spec(&b) == Ordering::Equal <==> a == b,
        forall|a: K, b: K| #[trigger] a.cmp_spec(&b) == Ordering::Greater <==> key_lt(b, a),
        forall|a: K, b: K| #[trigger] key_lt(a, b) ==> !key_lt(b, a) && a != b,
        forall|a: K, b: K| #[trigger] key_lt(a, b) || a == b || key_lt(b, a),
        forall|a: K, b: K, c: K| #[trigger] key_lt(a, b) && #[trigger] key_lt(b, c) ==> key_lt(a, c),
{
    reveal(vstd::laws_cmp::obeys_cmp_ord);
    reveal(vstd::laws_cmp::obeys_cmp_partial_ord);
    reveal(vstd::laws_cmp::obeys_partial_cmp_spec_properties);
    reveal(vstd::laws_eq::obeys_concrete_eq);
    reveal(vstd::laws_eq::obeys_eq_spec_properties);
}

/// The order is transitive.
pub proof fn lemma_lt_transitive<K: Ord>(a: K, b: K, c: K)
    requires
        total_order::<K>(),
        key_lt(a, b),
        key_lt(b, c),
    ensures
        key_lt(a, c),
{
    lemma_total_order::<K>();
}

/// Of two keys, exactly one is below the other, or they are equal.
pub proof fn lemma_lt_trichotomy<K: Ord>(a: K, b: K)
    requires
        total_order::<K>(),
    ensures
        key_lt(a, b) || a == b || key_lt(b, a),
        !(key_lt(a, b) && key_lt(b, a)),
        !(key_lt(a, b) && a == b),
{
    lemma_total_order::<K>();
}

/// What the comparison operators compute on keys under `total_order`: `<` is
/// `key_lt`, and `==` is equality of values.
pub proof fn lemma_operators<K: Ord>()
    requires
        total_order::<K>(),
    ensures
        K::obeys_partial_cmp_spec(),
        K::obeys_eq_spec(),
        forall|a: K, b: K| #[trigger] a.partial_cmp_spec(&b) == Some(a.cmp_spec(&b)),
        forall|a: K, b: K| #[trigger] a.eq_spec(&b) <==> a == b,
{
    reveal(vstd::laws_cmp::obeys_cmp_ord);
    reveal(vstd::laws_cmp::obeys_cmp_partial_ord);
    reveal(vstd::laws_eq::obeys_concrete_eq);
}

} // verus!
