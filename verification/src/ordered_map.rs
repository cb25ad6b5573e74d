//! The ordered map.

use vstd::prelude::*;
use vstd::arithmetic::logarithm::{log, lemma_log_is_ordered, lemma_log_pow};
use vstd::arithmetic::power2::{pow2, lemma_pow2};
use crate::order::{total_order, is_least_key, is_greatest_key, ascending, pointees};
use crate::node::{Color, Link, contents, lemma_contents, ordered, sized, red, black_height, balanced, left_leaning, height, inorder, size_node, is_red};
use crate::facts::{lemma_count_is_len, lemma_inorder, lemma_black_height};
use crate::search::{get_node, min_node, max_node, keys_in_order};
use crate::insert::put_node;
use crate::remove::{delete_min_node, delete_max_node, delete_node};

verus! {

/// A map from keys of a totally ordered type to values, kept in a
/// left-leaning red-black tree.
pub struct OrderedMap<K, V> {
    root: Link<K, V>,
}

impl<K, V> View for OrderedMap<K, V> {
    type V = Map<K, V>;

    /// The pairs that the map holds.
    closed spec fn view(&self) -> Map<K, V> {
        contents(self.root)
    }
}

impl<K: Ord, V> OrderedMap<K, V> {
    /// The invariant of the map: `K` is totally ordered, the tree is a binary
    /// search tree whose nodes know the size of their subtrees, no red link
    /// leans right or follows a red link, every path from the root to an
    /// empty position passes as many black links as any other, and the root
    /// is black.
    pub closed spec fn wf(&self) -> bool {
        &&& total_order::<K>()
        &&& ordered(self.root)
        &&& sized(self.root)
        &&& left_leaning(self.root)
        &&& balanced(self.root)
        &&& !red(self.root)
    }

    /// The number of nodes on the longest path from the root down.
    pub closed spec fn height(&self) -> nat {
        height(self.root)
    }

    /// The keys of a well-formed map are totally ordered.
    pub proof fn lemma_key_order(&self)
        requires
            self.wf(),
        ensures
            total_order::<K>(),
    {
    }

    /// A well-formed map holds finitely many keys.
    pub proof fn lemma_finite(&self)
        requires
            self.wf(),
        ensures
            self@.dom().finite(),
    {
        lemma_count_is_len(self.root);
    }

    /// The tree is never higher than twice the binary logarithm of the number
    /// of keys plus one.
    pub proof fn lemma_height_bound(&self)
        requires
            self.wf(),
        ensures
            self.height() <= 2 * log(2, self@.len() as int + 1),
    {
        lemma_count_is_len(self.root);
        lemma_black_height(self.root);
        let b = black_height(self.root);
        lemma_pow2(b);
        lemma_log_pow(2, b);
        lemma_log_is_ordered(2, pow2(b) as int, self@.len() as int + 1);
    }

    /// An empty map.
    pub fn new() -> (m: Self)
        requires
            total_order::<K>(),
        ensures
            m.wf(),
            m@ == Map::<K, V>::empty(),
    {
        OrderedMap { root: None }
    }

    /// Whether the map holds no pair.
    pub fn is_empty(&self) -> (b: bool)
        requires
            self.wf(),
        ensures
            b == (self@.len() == 0),
            b == (self@ == Map::<K, V>::empty()),
    {
        proof {
            lemma_count_is_len(self.root);
            if self.root is Some {
                lemma_contents(*self.root.unwrap());
                assert(self@.contains_key(self.root.unwrap().key));
            } else {
                assert(self@ =~= Map::<K, V>::empty());
            }
        }
        self.size() == 0
    }

    /// The number of pairs in the map.
    pub fn size(&self) -> (n: usize)
        requires
            self.wf(),
        ensures
            n == self@.len(),
            self@.dom().finite(),
    {
        proof {
            lemma_count_is_len(self.root);
        }
        size_node(&self.root)
    }

    /// The value stored under `key`, if there is one.
    pub fn get(&self, key: K) -> (r: Option<&V>)
        requires
            self.wf(),
        ensures
            match r {
                Some(v) => self@.contains_key(key) && *v == self@[key],
                None => !self@.contains_key(key),
            },
    {
        get_node(&self.root, &key)
    }

    /// Whether the map holds `key`.
    fn contains(&self, key: &K) -> (b: bool)
        requires
            self.wf(),
        ensures
            b == self@.contains_key(*key),
    {
        get_node(&self.root, key).is_some()
    }

    /// Stores `value` under `key`, in place of the value that was there, if
    /// any. The number of pairs has to stay within `usize`.
    pub fn put(&mut self, key: K, value: V)
        requires
            old(self).wf(),
            old(self)@.contains_key(key) || old(self)@.len() < usize::MAX,
        ensures
            final(self).wf(),
            final(self)@ == old(self)@.insert(key, value),
    {
        proof {
            lemma_count_is_len(self.root);
        }
        self.root = put_node(self.root.take(), key, value);
        if let Some(ref mut root) = self.root {
            root.color = Color::Black;
        }
    }

    /// Removes the pair with the least key. The map must not be empty.
    pub fn delete_min(&mut self)
        requires
            old(self).wf(),
            old(self)@.len() > 0,
        ensures
            final(self).wf(),
            exists|k: K| is_least_key(old(self)@, k) && final(self)@ == old(self)@.remove(k),
    {
        proof {
            lemma_count_is_len(self.root);
        }
        if let Some(ref mut root) = self.root {
            if !is_red(&root.left) && !is_red(&root.right) {
                root.color = Color::Red;
            }
        }
        let (rest, _, _) = delete_min_node(self.root.take());
        self.root = rest;
        if let Some(ref mut root) = self.root {
            root.color = Color::Black;
        }
    }

    /// Removes the pair with the greatest key. The map must not be empty.
    pub fn delete_max(&mut self)
        requires
            old(self).wf(),
            old(self)@.len() > 0,
        ensures
            final(self).wf(),
            exists|k: K| is_greatest_key(old(self)@, k) && final(self)@ == old(self)@.remove(k),
    {
        proof {
            lemma_count_is_len(self.root);
        }
        if let Some(ref mut root) = self.root {
            if !is_red(&root.left) && !is_red(&root.right) {
                root.color = Color::Red;
            }
        }
        self.root = delete_max_node(self.root.take());
        if let Some(ref mut root) = self.root {
            root.color = Color::Black;
        }
    }

    /// Removes `key` and its value; does nothing if the map does not hold
    /// `key`.
    pub fn delete(&mut self, key: K)
        requires
            old(self).wf(),
        ensures
            final(self).wf(),
            final(self)@ == old(self)@.remove(key),
            !old(self)@.contains_key(key) ==> final(self)@ == old(self)@,
    {
        if !self.contains(&key) {
            proof {
                assert(self@.remove(key) =~= self@);
            }
            return ;
        }
        if let Some(ref mut root) = self.root {
            if !is_red(&root.left) && !is_red(&root.right) {
                root.color = Color::Red;
            }
        }
        self.root = delete_node(self.root.take(), key);
        if let Some(ref mut root) = self.root {
            root.color = Color::Black;
        }
    }

    /// The least key, if the map is not empty.
    pub fn min(&self) -> (r: Option<&K>)
        requires
            self.wf(),
        ensures
            match r {
                Some(k) => is_least_key(self@, *k),
                None => self@ == Map::<K, V>::empty(),
            },
    {
        match &self.root {
            Some(node) => Some(&min_node(node).key),
            None => None,
        }
    }

    /// The greatest key, if the map is not empty.
    pub fn max(&self) -> (r: Option<&K>)
        requires
            self.wf(),
        ensures
            match r {
                Some(k) => is_greatest_key(self@, *k),
                None => self@ == Map::<K, V>::empty(),
            },
    {
        match &self.root {
            Some(node) => Some(&max_node(node).key),
            None => None,
        }
    }

    /// All keys, in ascending order.
    pub fn keys(&self) -> (r: Vec<&K>)
        requires
            self.wf(),
        ensures
            ascending(pointees(r@)),
            pointees(r@).no_duplicates(),
            pointees(r@).to_set() == self@.dom(),
            r@.len() == self@.len(),
    {
        let mut vec = Vec::new();
        keys_in_order(&self.root, &mut vec);
        proof {
            lemma_count_is_len(self.root);
            lemma_inorder(self.root);
            crate::order::lemma_total_order::<K>();
            assert(pointees(vec@) =~= inorder(self.root));
            assert(pointees(vec@).to_set() =~= self@.dom());
        }
        vec
    }
}

} // verus!
