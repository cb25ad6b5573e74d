//! Insertion into a subtree.

use vstd::prelude::*;
use core::cmp::Ordering;
use crate::order::{total_order, lemma_total_order};
use crate::node::{Color, Node, Link, contents, lemma_contents, ordered, count, sized, red, black_height, balanced, left_leaning, nearly_left_leaning};
use crate::rotate::balance;

verus! {

/// Stores `value` under `key` in the subtree `node` and hands back the new
/// subtree. A new node comes in red; on the way back up every node on the
/// path is balanced again. The result has the black height of `node`; its
/// root may be red, and if `node` was red, the root's left child may be red
/// as well.
pub(crate) fn put_node<K: Ord, V>(node: Link<K, V>, key: K, value: V) -> (r: Link<K, V>)
    requires
        total_order::<K>(),
        ordered(node),
        sized(node),
        count(node) + if contents(node).contains_key(key) { 0nat } else { 1nat } <= usize::MAX,
        left_leaning(node),
        balanced(node),
    ensures
        r is Some,
        ordered(r),
        sized(r),
        contents(r) == contents(node).insert(key, value),
        count(r) == count(node) + if contents(node).contains_key(key) { 0nat } else { 1nat },
        balanced(r),
        black_height(r) == black_height(node),
        nearly_left_leaning(r),
        !red(node) ==> left_leaning(r),
    decreases node,
{
    proof {
        lemma_total_order::<K>();
    }
    let mut h = match node {
        Some(n) => n,
        None => {
            let fresh = Some(Box::new(Node::new(key, value, Color::Red, 1)));
            proof {
                assert(contents(fresh) =~= contents(node).insert(key, value));
            }
            return fresh;
        },
    };
    let ghost h0 = *h;
    proof {
        lemma_contents(h0);
    }
    match key.cmp(&h.key) {
        Ordering::Less => {
            h.left = put_node(h.left.take(), key, value);
        },
        Ordering::Greater => {
            h.right = put_node(h.right.take(), key, value);
        },
        Ordering::Equal => {
            h.value = value;
        },
    }
    proof {
        lemma_contents(*h);
        assert(contents(Some(h)) =~= contents(node).insert(key, value));
    }
    let r = balance(h);
    Some(r)
}

} // verus!
