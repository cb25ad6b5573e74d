//! Deletion from a subtree: of the least key, of the greatest key, and of a
//! given key.

use vstd::prelude::*;
use crate::order::{key_lt, total_order, lemma_operators, lemma_lt_transitive, lemma_lt_trichotomy, is_least_key, is_greatest_key};
use crate::node::{Link, contents, ordered, count, sized, red, black_height, balanced, left_leaning, is_red};
use crate::rotate::{balance, rotate_right, move_red_left, move_red_right, deletable, restored, lemma_rotated_for_delete};
use crate::facts::{lemma_descend_left, lemma_descend_right, lemma_children_keys, lemma_leaf, lemma_removed_left, lemma_removed_right, lemma_least_on_left, lemma_greatest_on_right, lemma_spliced};

verus! {

/// Removes the node with the least key from the subtree `h` and hands back
/// what is left, with the pair that the node held.
pub(crate) fn delete_min_node<K: Ord, V>(h: Link<K, V>) -> (out: (Link<K, V>, K, V))
    requires
        total_order::<K>(),
        ordered(h),
        sized(h),
        deletable(h),
        !red(h.unwrap().right),
    ensures
        is_least_key(contents(h), out.1),
        contents(h)[out.1] == out.2,
        contents(out.0) == contents(h).remove(out.1),
        ordered(out.0),
        sized(out.0),
        count(out.0) + 1 == count(h),
        restored(h, out.0),
    decreases count(h),
{
    proof {
        reveal_with_fuel(black_height, 2);
        reveal_with_fuel(balanced, 2);
        reveal_with_fuel(left_leaning, 2);
    }
    let mut h = h.unwrap();
    let ghost h0 = *h;
    if h.left.is_none() {
        let n = *h;
        proof {
            lemma_leaf(h0);
        }
        return (None, n.key, n.value);
    }
    if !is_red(&h.left) && !is_red(&h.left.as_ref().unwrap().left) {
        h = move_red_left(h);
    }
    let ghost h1 = *h;
    let (rest, k, v) = delete_min_node(h.left.take());
    h.left = rest;
    proof {
        lemma_least_on_left(h1, k);
        lemma_removed_left(h1, *h, k);
    }
    (Some(balance(h)), k, v)
}

/// Removes the node with the greatest key from the subtree `h` and hands back
/// what is left.
pub(crate) fn delete_max_node<K: Ord, V>(h: Link<K, V>) -> (r: Link<K, V>)
    requires
        total_order::<K>(),
        ordered(h),
        sized(h),
        deletable(h),
    ensures
        exists|k: K| is_greatest_key(contents(h), k) && contents(r) == contents(h).remove(k),
        ordered(r),
        sized(r),
        count(r) + 1 == count(h),
        restored(h, r),
    decreases count(h),
{
    proof {
        reveal_with_fuel(black_height, 2);
        reveal_with_fuel(balanced, 2);
        reveal_with_fuel(left_leaning, 2);
    }
    let mut h = h.unwrap();
    let ghost h0 = *h;
    if is_red(&h.left) {
        h = rotate_right(h);
        proof {
            lemma_rotated_for_delete(h0, *h);
        }
    }
    if h.right.is_none() {
        proof {
            lemma_leaf(*h);
        }
        return None;
    }
    if !is_red(&h.right) && !is_red(&h.right.as_ref().unwrap().left) {
        h = move_red_right(h);
    }
    let ghost h1 = *h;
    let rest = delete_max_node(h.right.take());
    h.right = rest;
    proof {
        let k = choose|k: K|
            is_greatest_key(contents(h1.right), k) && contents(rest) == contents(h1.right).remove(
                k,
            );
        lemma_greatest_on_right(h1, k);
        lemma_removed_right(h1, *h, k);
    }
    Some(balance(h))
}

/// Removes `key`, which the subtree `h` holds, and hands back what is left.
pub(crate) fn delete_node<K: Ord, V>(h: Link<K, V>, key: K) -> (r: Link<K, V>)
    requires
        total_order::<K>(),
        ordered(h),
        sized(h),
        deletable(h),
        contents(h).contains_key(key),
        red(h.unwrap().right) ==> !key_lt(key, h.unwrap().key),
    ensures
        contents(r) == contents(h).remove(key),
        ordered(r),
        sized(r),
        count(r) + 1 == count(h),
        restored(h, r),
    decreases count(h),
{
    proof {
        lemma_operators::<K>();
        reveal_with_fuel(black_height, 2);
        reveal_with_fuel(balanced, 2);
        reveal_with_fuel(left_leaning, 2);
    }
    let mut h = h.unwrap();
    let ghost h0 = *h;
    if key < h.key {
        proof {
            lemma_descend_left(h0, key);
        }
        if !is_red(&h.left) && !is_red(&h.left.as_ref().unwrap().left) {
            h = move_red_left(h);
            proof {
                if h.key != h0.key {
                    lemma_lt_transitive(key, h0.key, h.key);
                }
            }
        }
        let ghost h1 = *h;
        proof {
            lemma_descend_left(h1, key);
        }
        h.left = delete_node(h.left.take(), key);
        proof {
            lemma_removed_left(h1, *h, key);
        }
    } else {
        if is_red(&h.left) {
            h = rotate_right(h);
            proof {
                lemma_rotated_for_delete(h0, *h);
                lemma_children_keys(h0);
                lemma_lt_trichotomy(key, h0.key);
                if key != h0.key {
                    lemma_lt_transitive(h.key, h0.key, key);
                }
            }
        }
        let ghost h1 = *h;
        proof {
            lemma_lt_trichotomy(key, h1.key);
        }
        if key == h.key && h.right.is_none() {
            proof {
                lemma_leaf(h1);
            }
            return None;
        }
        proof {
            if key != h1.key {
                lemma_descend_right(h1, key);
            }
        }
        if !is_red(&h.right) && !is_red(&h.right.as_ref().unwrap().left) {
            h = move_red_right(h);
            proof {
                lemma_children_keys(*h);
                lemma_lt_trichotomy(key, h.key);
                if h.key != h1.key && key != h1.key {
                    lemma_lt_transitive(h.key, h1.key, key);
                }
            }
        }
        let ghost h2 = *h;
        if key == h.key {
            let (rest, k, v) = delete_min_node(h.right.take());
            h.key = k;
            h.value = v;
            h.right = rest;
            proof {
                lemma_spliced(h2, *h);
            }
        } else {
            proof {
                lemma_descend_right(h2, key);
            }
            h.right = delete_node(h.right.take(), key);
            proof {
                lemma_removed_right(h2, *h, key);
            }
        }
    }
    Some(balance(h))
}

} // verus!
