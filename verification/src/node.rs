//! Tree nodes and the mathematical model of a subtree.

use vstd::prelude::*;
use crate::order::key_lt;

verus! {

/// The colour of the link from a node to its parent.
#[derive(Clone, Copy, Debug)]
pub(crate) enum Color {
    Red,
    Black,
}

/// A node of the tree: a pair, the two subtrees below it, the colour of the
/// link from above, and the number of nodes in the subtree that it heads.
pub(crate) struct Node<K, V> {
    pub(crate) key: K,
    pub(crate) value: V,
    pub(crate) left: Option<Box<Node<K, V>>>,
    pub(crate) right: Option<Box<Node<K, V>>>,
    pub(crate) color: Color,
    pub(crate) size: usize,
}

/// A possibly empty subtree.
pub(crate) type Link<K, V> = Option<Box<Node<K, V>>>;

/// The key-value pairs held in a subtree.
pub(crate) open spec fn contents<K, V>(t: Link<K, V>) -> Map<K, V>
    decreases t,
{
    match t {
        None => Map::empty(),
        Some(n) => contents(n.left).union_prefer_right(contents(n.right)).insert(n.key, n.value),
    }
}

/// Binary-search-tree order: at every node, each key on the left is below the
/// node's key and each key on the right is above it.
pub(crate) open spec fn ordered<K: Ord, V>(t: Link<K, V>) -> bool
    decreases t,
{
    match t {
        None => true,
        Some(n) => {
            &&& ordered(n.left)
            &&& ordered(n.right)
            &&& forall|k: K| #[trigger] contents(n.left).contains_key(k) ==> key_lt(k, n.key)
            &&& forall|k: K| #[trigger] contents(n.right).contains_key(k) ==> key_lt(n.key, k)
        }
    }
}

/// The number of nodes in a subtree.
pub(crate) open spec fn count<K, V>(t: Link<K, V>) -> nat
    decreases t,
{
    match t {
        None => 0,
        Some(n) => 1 + count(n.left) + count(n.right),
    }
}

/// Every node's `size` field holds the number of nodes below and including it.
pub(crate) open spec fn sized<K, V>(t: Link<K, V>) -> bool
    decreases t,
{
    match t {
        None => true,
        Some(n) => n.size == count(t) && sized(n.left) && sized(n.right),
    }
}

/// The subtree is non-empty and hangs on a red link.
pub(crate) open spec fn red<K, V>(t: Link<K, V>) -> bool {
    match t {
        None => false,
        Some(n) => n.color is Red,
    }
}

/// The number of black links on the leftmost path down from (and including)
/// the link into `t`.
pub(crate) open spec fn black_height<K, V>(t: Link<K, V>) -> nat
    decreases t,
{
    match t {
        None => 0,
        Some(n) => black_height(n.left) + if n.color is Black { 1nat } else { 0nat },
    }
}

/// Perfect black balance: below every node, both sides have the same black
/// height.
pub(crate) open spec fn balanced<K, V>(t: Link<K, V>) -> bool
    decreases t,
{
    match t {
        None => true,
        Some(n) => balanced(n.left) && balanced(n.right) && black_height(n.left) == black_height(
            n.right,
        ),
    }
}

/// The colour rules at rest: no red link leans right, and no red link follows
/// a red link.
pub(crate) open spec fn left_leaning<K, V>(t: Link<K, V>) -> bool
    decreases t,
{
    match t {
        None => true,
        Some(n) => {
            &&& left_leaning(n.left)
            &&& left_leaning(n.right)
            &&& !red(n.right)
            &&& (n.color is Red ==> !red(n.left))
        }
    }
}

/// The colour rules hold everywhere below the root of `t`; at the root itself
/// a red link may still follow a red link.
pub(crate) open spec fn nearly_left_leaning<K, V>(t: Link<K, V>) -> bool {
    match t {
        None => true,
        Some(n) => left_leaning(n.left) && left_leaning(n.right) && !red(n.right),
    }
}

/// The other colour.
pub(crate) open spec fn opposite(c: Color) -> Color {
    match c {
        Color::Red => Color::Black,
        Color::Black => Color::Red,
    }
}

/// The same subtree with the colour of its root link flipped.
pub(crate) open spec fn toggled<K, V>(t: Link<K, V>) -> Link<K, V> {
    match t {
        None => None,
        Some(n) => Some(
            Box::new(
                Node {
                    key: n.key,
                    value: n.value,
                    left: n.left,
                    right: n.right,
                    color: opposite(n.color),
                    size: n.size,
                },
            ),
        ),
    }
}

/// The number of nodes on the longest path down from `t`.
pub(crate) open spec fn height<K, V>(t: Link<K, V>) -> nat
    decreases t,
{
    match t {
        None => 0,
        Some(n) => 1 + if height(n.left) >= height(n.right) {
            height(n.left)
        } else {
            height(n.right)
        },
    }
}

/// The keys of a subtree in symmetric order: left subtree, node, right subtree.
pub(crate) open spec fn inorder<K, V>(t: Link<K, V>) -> Seq<K>
    decreases t,
{
    match t {
        None => Seq::empty(),
        Some(n) => inorder(n.left).push(n.key) + inorder(n.right),
    }
}

/// `b` holds the same pairs in as many nodes as `a`, and is in search-tree
/// order.
pub(crate) open spec fn same_map<K: Ord, V>(a: Link<K, V>, b: Link<K, V>) -> bool {
    &&& contents(b) == contents(a)
    &&& count(b) == count(a)
    &&& ordered(b)
}

/// Membership and lookup in a node's contents, in terms of its parts.
pub(crate) proof fn lemma_contents<K, V>(n: Node<K, V>)
    ensures
        forall|k: K| #[trigger]
            contents(Some(Box::new(n))).contains_key(k) <==> k == n.key || contents(
                n.left,
            ).contains_key(k) || contents(n.right).contains_key(k),
        forall|k: K|
            contents(Some(Box::new(n))).contains_key(k) ==> #[trigger] contents(
                Some(Box::new(n)),
            )[k] == if k == n.key {
                n.value
            } else if contents(n.right).contains_key(k) {
                contents(n.right)[k]
            } else {
                contents(n.left)[k]
            },
{
}

impl<K, V> Node<K, V> {
    /// A node without children.
    pub(crate) fn new(key: K, value: V, color: Color, size: usize) -> (n: Self)
        ensures
            n.key == key,
            n.value == value,
            n.left is None,
            n.right is None,
            n.color == color,
            n.size == size,
    {
        Node { key, value, left: None, right: None, color, size }
    }
}

/// The `size` field of the root of `node`, or 0 for an empty subtree.
pub(crate) fn size_node<K, V>(node: &Link<K, V>) -> (s: usize)
    ensures
        s == match *node {
            Some(n) => n.size,
            None => 0,
        },
{
    match node {
        Some(n) => n.size,
        None => 0,
    }
}

/// Whether `node` is a node on a red link.
pub(crate) fn is_red<K, V>(node: &Link<K, V>) -> (r: bool)
    ensures
        r == red(*node),
{
    match node {
        Some(n) => matches!(n.color, Color::Red),
        None => false,
    }
}

} // verus!
