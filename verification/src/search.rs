//! Read-only walks over a subtree: lookup, extreme keys, and the keys in
//! ascending order.

use vstd::prelude::*;
use core::cmp::Ordering;
use crate::order::{total_order, lemma_total_order, is_least_key, is_greatest_key, pointees};
use crate::node::{Node, Link, contents, lemma_contents, ordered, inorder};

verus! {

/// Looks `key` up in the subtree `node`.
pub(crate) fn get_node<'a, K: Ord, V>(node: &'a Link<K, V>, key: &K) -> (r: Option<&'a V>)
    requires
        total_order::<K>(),
        ordered(*node),
    ensures
        r.is_some() == contents(*node).contains_key(*key),
        r.is_some() ==> *r.unwrap() == contents(*node)[*key],
    decreases *node,
{
    proof {
        lemma_total_order::<K>();
    }
    match node {
        Some(n) => {
            proof {
                lemma_contents(**n);
            }
            match key.cmp(&n.key) {
                Ordering::Less => get_node(&n.left, key),
                Ordering::Greater => get_node(&n.right, key),
                Ordering::Equal => Some(&n.value),
            }
        },
        None => None,
    }
}

/// The node with the least key of the subtree `x`: the leftmost one.
pub(crate) fn min_node<K: Ord, V>(x: &Box<Node<K, V>>) -> (m: &Box<Node<K, V>>)
    requires
        total_order::<K>(),
        ordered(Some(*x)),
    ensures
        is_least_key(contents(Some(*x)), m.key),
        contents(Some(*x))[m.key] == m.value,
    decreases *x,
{
    proof {
        lemma_total_order::<K>();
        lemma_contents(**x);
    }
    match &x.left {
        Some(left) => {
            proof {
                lemma_contents(**left);
            }
            min_node(left)
        },
        None => x,
    }
}

/// The node with the greatest key of the subtree `x`: the rightmost one.
pub(crate) fn max_node<K: Ord, V>(x: &Box<Node<K, V>>) -> (m: &Box<Node<K, V>>)
    requires
        total_order::<K>(),
        ordered(Some(*x)),
    ensures
        is_greatest_key(contents(Some(*x)), m.key),
        contents(Some(*x))[m.key] == m.value,
    decreases *x,
{
    proof {
        lemma_total_order::<K>();
        lemma_contents(**x);
    }
    match &x.right {
        Some(right) => {
            proof {
                lemma_contents(**right);
            }
            max_node(right)
        },
        None => x,
    }
}

/// Appends the keys of the subtree `node` to `vec`, in symmetric order.
pub(crate) fn keys_in_order<'a, K, V>(node: &'a Link<K, V>, vec: &mut Vec<&'a K>)
    ensures
        pointees(final(vec)@) == pointees(old(vec)@) + inorder(*node),
    decreases *node,
{
    if let Some(n) = node {
        keys_in_order(&n.left, vec);
        let ghost below = vec@;
        vec.push(&n.key);
        let ghost upto = vec@;
        keys_in_order(&n.right, vec);
        proof {
            assert(pointees(upto) =~= pointees(below).push(n.key));
            assert(pointees(below).push(n.key) + inorder(n.right) =~= pointees(old(vec)@) + (
            inorder(n.left).push(n.key) + inorder(n.right)));
        }
    } else {
        proof {
            assert(pointees(vec@) =~= pointees(old(vec)@) + inorder(*node));
        }
    }
}

} // verus!
