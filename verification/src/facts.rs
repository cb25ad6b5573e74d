//! What the invariants of a subtree imply about its size, its keys in
//! symmetric order, and its height.

use vstd::prelude::*;
use vstd::arithmetic::power2::{pow2, lemma_pow2_unfold, lemma2_to64};
use vstd::set_lib::lemma_set_disjoint_lens;
use crate::order::{key_lt, total_order, lemma_total_order, ascending, is_least_key, is_greatest_key};
use crate::node::{Node, Link, contents, lemma_contents, ordered, count, red, black_height, balanced, left_leaning, height, inorder};

verus! {

/// A subtree in search-tree order holds as many keys as it has nodes.
pub(crate) proof fn lemma_count_is_len<K: Ord, V>(t: Link<K, V>)
    requires
        total_order::<K>(),
        ordered(t),
    ensures
        contents(t).dom().finite(),
        contents(t).dom().len() == count(t),
    decreases t,
{
    match t {
        None => {
            assert(contents(t).dom() =~= Set::<K>::empty());
        },
        Some(n) => {
            lemma_total_order::<K>();
            lemma_contents(*n);
            lemma_count_is_len(n.left);
            lemma_count_is_len(n.right);
            let a = contents(n.left).dom();
            let b = contents(n.right).dom();
            assert(a.disjoint(b)) by {
                assert forall|k: K| !(a.contains(k) && b.contains(k)) by {
                    if a.contains(k) && b.contains(k) {
                        assert(contents(n.left).contains_key(k));
                        assert(contents(n.right).contains_key(k));
                        assert(key_lt(k, n.key) && key_lt(n.key, k));
                    }
                }
            }
            lemma_set_disjoint_lens(a, b);
            assert(contents(t).dom() =~= (a + b).insert(n.key));
            if (a + b).contains(n.key) {
                assert(contents(n.left).contains_key(n.key) || contents(n.right).contains_key(
                    n.key,
                ));
                assert(key_lt(n.key, n.key));
            }
        },
    }
}

/// A symmetric walk meets the key at the root.
proof fn lemma_inorder_has_root<K, V>(n: Node<K, V>)
    ensures
        inorder(Some(Box::new(n))).contains(n.key),
{
    let s = inorder(Some(Box::new(n)));
    assert(s[inorder(n.left).len() as int] == n.key);
}

/// The keys of a subtree in search-tree order come out of a symmetric walk
/// in ascending order, each key once.
pub(crate) proof fn lemma_inorder<K: Ord, V>(t: Link<K, V>)
    requires
        total_order::<K>(),
        ordered(t),
    ensures
        ascending(inorder(t)),
        inorder(t).len() == count(t),
        forall|k: K| inorder(t).contains(k) <==> #[trigger] contents(t).contains_key(k),
    decreases t,
{
    match t {
        None => {},
        Some(n) => {
            lemma_total_order::<K>();
            lemma_contents(*n);
            lemma_inorder(n.left);
            lemma_inorder(n.right);
            let l = inorder(n.left);
            let r = inorder(n.right);
            let s = inorder(t);
            assert(s == l.push(n.key) + r);
            assert forall|i: int| 0 <= i < l.len() implies s[i] == l[i] && key_lt(
                #[trigger] s[i],
                n.key,
            ) by {
                assert(l.contains(l[i]));
                assert(contents(n.left).contains_key(l[i]));
            }
            assert forall|i: int| i == l.len() implies #[trigger] s[i] == n.key by {}
            assert forall|i: int| l.len() < i < s.len() implies s[i] == r[i - l.len() - 1]
                && key_lt(n.key, #[trigger] s[i]) by {
                assert(r.contains(r[i - l.len() - 1]));
                assert(contents(n.right).contains_key(r[i - l.len() - 1]));
            }
            assert forall|i: int, j: int| 0 <= i < j < s.len() implies key_lt(s[i], s[j]) by {
                if j < l.len() {
                    assert(key_lt(l[i], l[j]));
                } else if i > l.len() {
                    assert(key_lt(r[i - l.len() - 1], r[j - l.len() - 1]));
                } else if i == l.len() {
                    assert(key_lt(n.key, s[j]));
                } else if j == l.len() {
                    assert(key_lt(s[i], n.key));
                } else {
                    assert(key_lt(s[i], n.key));
                    assert(key_lt(n.key, s[j]));
                }
            }
            assert forall|k: K| s.contains(k) <==> #[trigger] contents(t).contains_key(k) by {
                if s.contains(k) {
                    let i = choose|i: int| 0 <= i < s.len() && s[i] == k;
                    if i < l.len() {
                        assert(l.contains(l[i]));
                    } else if i > l.len() {
                        assert(r.contains(r[i - l.len() - 1]));
                    }
                }
                if contents(t).contains_key(k) {
                    if k == n.key {
                        lemma_inorder_has_root(*n);
                    } else if contents(n.left).contains_key(k) {
                        assert(l.contains(k));
                        let i = choose|i: int| 0 <= i < l.len() && l[i] == k;
                        assert(s[i] == k);
                    } else {
                        assert(r.contains(k));
                        let i = choose|i: int| 0 <= i < r.len() && r[i] == k;
                        assert(s[i + l.len() + 1] == k);
                    }
                }
            }
        },
    }
}

/// In a black-balanced subtree that obeys the colour rules, no path is longer
/// than twice the black height (plus one under a red root link), and the
/// number of nodes is at least two to the black height, less one.
pub(crate) proof fn lemma_black_height<K, V>(t: Link<K, V>)
    requires
        balanced(t),
        left_leaning(t),
    ensures
        height(t) <= 2 * black_height(t) + if red(t) { 1nat } else { 0nat },
        pow2(black_height(t)) <= count(t) + 1,
    decreases t,
{
    match t {
        None => {
            lemma2_to64();
        },
        Some(n) => {
            lemma_black_height(n.left);
            lemma_black_height(n.right);
            if !red(t) {
                lemma_pow2_unfold(black_height(t));
            }
        },
    }
}

/// In a tree in search-tree order, a key below the root's key is found on the
/// left.
pub(crate) proof fn lemma_descend_left<K: Ord, V>(h: Node<K, V>, key: K)
    requires
        total_order::<K>(),
        ordered(Some(Box::new(h))),
        contents(Some(Box::new(h))).contains_key(key),
        key_lt(key, h.key),
    ensures
        contents(h.left).contains_key(key),
{
    lemma_total_order::<K>();
    lemma_contents(h);
}

/// In a tree in search-tree order, a key above the root's key is found on the
/// right.
pub(crate) proof fn lemma_descend_right<K: Ord, V>(h: Node<K, V>, key: K)
    requires
        total_order::<K>(),
        ordered(Some(Box::new(h))),
        contents(Some(Box::new(h))).contains_key(key),
        key_lt(h.key, key),
    ensures
        contents(h.right).contains_key(key),
{
    lemma_total_order::<K>();
    lemma_contents(h);
}

/// The keys of the root's children lie on either side of the root's key.
pub(crate) proof fn lemma_children_keys<K: Ord, V>(h: Node<K, V>)
    requires
        ordered(Some(Box::new(h))),
    ensures
        h.left is Some ==> key_lt(h.left.unwrap().key, h.key),
        h.right is Some ==> key_lt(h.key, h.right.unwrap().key),
{
    if h.left is Some {
        lemma_contents(*h.left.unwrap());
        assert(contents(h.left).contains_key(h.left.unwrap().key));
    }
    if h.right is Some {
        lemma_contents(*h.right.unwrap());
        assert(contents(h.right).contains_key(h.right.unwrap().key));
    }
}

/// A node without children holds one pair.
pub(crate) proof fn lemma_leaf<K: Ord, V>(h: Node<K, V>)
    requires
        h.left is None,
        h.right is None,
    ensures
        contents(None::<Box<Node<K, V>>>) == contents(Some(Box::new(h))).remove(h.key),
        is_least_key(contents(Some(Box::new(h))), h.key),
        is_greatest_key(contents(Some(Box::new(h))), h.key),
        contents(Some(Box::new(h)))[h.key] == h.value,
{
    lemma_contents(h);
    assert(contents(None::<Box<Node<K, V>>>) =~= contents(Some(Box::new(h))).remove(h.key));
}

/// Removing a key from the left subtree removes it from the tree, and keeps
/// the search-tree order.
pub(crate) proof fn lemma_removed_left<K: Ord, V>(h: Node<K, V>, x: Node<K, V>, key: K)
    requires
        total_order::<K>(),
        ordered(Some(Box::new(h))),
        x.key == h.key,
        x.value == h.value,
        x.right == h.right,
        ordered(x.left),
        contents(h.left).contains_key(key),
        contents(x.left) == contents(h.left).remove(key),
    ensures
        ordered(Some(Box::new(x))),
        contents(Some(Box::new(x))) == contents(Some(Box::new(h))).remove(key),
{
    lemma_total_order::<K>();
    lemma_contents(h);
    lemma_contents(x);
    assert(contents(Some(Box::new(x))) =~= contents(Some(Box::new(h))).remove(key));
}

/// Removing a key from the right subtree removes it from the tree, and keeps
/// the search-tree order.
pub(crate) proof fn lemma_removed_right<K: Ord, V>(h: Node<K, V>, x: Node<K, V>, key: K)
    requires
        total_order::<K>(),
        ordered(Some(Box::new(h))),
        x.key == h.key,
        x.value == h.value,
        x.left == h.left,
        ordered(x.right),
        contents(h.right).contains_key(key),
        contents(x.right) == contents(h.right).remove(key),
    ensures
        ordered(Some(Box::new(x))),
        contents(Some(Box::new(x))) == contents(Some(Box::new(h))).remove(key),
{
    lemma_total_order::<K>();
    lemma_contents(h);
    lemma_contents(x);
    assert(contents(Some(Box::new(x))) =~= contents(Some(Box::new(h))).remove(key));
}

/// The least key of a non-empty left subtree is the least key of the tree.
pub(crate) proof fn lemma_least_on_left<K: Ord, V>(h: Node<K, V>, k: K)
    requires
        total_order::<K>(),
        ordered(Some(Box::new(h))),
        is_least_key(contents(h.left), k),
    ensures
        is_least_key(contents(Some(Box::new(h))), k),
        contents(Some(Box::new(h)))[k] == contents(h.left)[k],
{
    lemma_total_order::<K>();
    lemma_contents(h);
}

/// The greatest key of a non-empty right subtree is the greatest key of the
/// tree.
pub(crate) proof fn lemma_greatest_on_right<K: Ord, V>(h: Node<K, V>, k: K)
    requires
        total_order::<K>(),
        ordered(Some(Box::new(h))),
        is_greatest_key(contents(h.right), k),
    ensures
        is_greatest_key(contents(Some(Box::new(h))), k),
{
    lemma_total_order::<K>();
    lemma_contents(h);
}

/// Putting the least pair of the right subtree in the place of the root's
/// pair, and taking it out of the right subtree, removes the root's key and
/// keeps the search-tree order.
pub(crate) proof fn lemma_spliced<K: Ord, V>(h: Node<K, V>, x: Node<K, V>)
    requires
        total_order::<K>(),
        ordered(Some(Box::new(h))),
        x.left == h.left,
        is_least_key(contents(h.right), x.key),
        x.value == contents(h.right)[x.key],
        ordered(x.right),
        contents(x.right) == contents(h.right).remove(x.key),
    ensures
        ordered(Some(Box::new(x))),
        contents(Some(Box::new(x))) == contents(Some(Box::new(h))).remove(h.key),
{
    lemma_total_order::<K>();
    lemma_contents(h);
    lemma_contents(x);
    assert(contents(Some(Box::new(x))) =~= contents(Some(Box::new(h))).remove(h.key));
}

} // verus!
