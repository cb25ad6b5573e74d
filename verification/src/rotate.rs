//! The local restructuring steps: rotations and colour flips.

use vstd::prelude::*;
use crate::order::{key_lt, total_order, lemma_total_order};
use crate::node::{Color, Node, Link, contents, lemma_contents, ordered, count, sized, red, same_map, size_node, is_red, opposite, toggled, black_height, balanced, left_leaning, nearly_left_leaning};

verus! {

/// `x` is `h` rotated to the left: `h`'s right child has become the root and
/// taken `h`'s colour and size field, and `h` hangs red on its left.
pub(crate) open spec fn is_left_rotation<K, V>(h: Node<K, V>, x: Node<K, V>) -> bool {
    &&& h.right is Some
    &&& x.left is Some
    &&& x.key == h.right.unwrap().key
    &&& x.value == h.right.unwrap().value
    &&& x.right == h.right.unwrap().right
    &&& x.color == h.color
    &&& x.size == h.size
    &&& x.left.unwrap().key == h.key
    &&& x.left.unwrap().value == h.value
    &&& x.left.unwrap().left == h.left
    &&& x.left.unwrap().right == h.right.unwrap().left
    &&& x.left.unwrap().color is Red
}

/// `x` is `h` rotated to the right, the mirror image of a left rotation.
pub(crate) open spec fn is_right_rotation<K, V>(h: Node<K, V>, x: Node<K, V>) -> bool {
    &&& h.left is Some
    &&& x.right is Some
    &&& x.key == h.left.unwrap().key
    &&& x.value == h.left.unwrap().value
    &&& x.left == h.left.unwrap().left
    &&& x.color == h.color
    &&& x.size == h.size
    &&& x.right.unwrap().key == h.key
    &&& x.right.unwrap().value == h.value
    &&& x.right.unwrap().right == h.right
    &&& x.right.unwrap().left == h.left.unwrap().right
    &&& x.right.unwrap().color is Red
}

/// A rotation keeps the pairs, the node count and the search-tree order.
pub(crate) proof fn lemma_left_rotation<K: Ord, V>(h: Node<K, V>, x: Node<K, V>)
    requires
        total_order::<K>(),
        is_left_rotation(h, x),
        ordered(Some(Box::new(h))),
    ensures
        same_map(Some(Box::new(h)), Some(Box::new(x))),
{
    lemma_total_order::<K>();
    reveal_with_fuel(ordered, 2);
    reveal_with_fuel(count, 2);
    let r = *h.right.unwrap();
    let l = *x.left.unwrap();
    lemma_contents(h);
    lemma_contents(r);
    lemma_contents(l);
    lemma_contents(x);
    assert(contents(h.right).contains_key(r.key));
    assert forall|k: K| contents(r.left).contains_key(k) implies key_lt(h.key, k) by {
        assert(contents(h.right).contains_key(k));
    }
    assert forall|k: K| contents(r.right).contains_key(k) implies key_lt(h.key, k) by {
        assert(contents(h.right).contains_key(k));
    }
    assert(contents(Some(Box::new(x))) =~= contents(Some(Box::new(h))));
}

/// A right rotation keeps the pairs, the node count and the search-tree order.
pub(crate) proof fn lemma_right_rotation<K: Ord, V>(h: Node<K, V>, x: Node<K, V>)
    requires
        total_order::<K>(),
        is_right_rotation(h, x),
        ordered(Some(Box::new(h))),
    ensures
        same_map(Some(Box::new(h)), Some(Box::new(x))),
{
    lemma_total_order::<K>();
    reveal_with_fuel(ordered, 2);
    reveal_with_fuel(count, 2);
    let l = *h.left.unwrap();
    let r = *x.right.unwrap();
    lemma_contents(h);
    lemma_contents(l);
    lemma_contents(r);
    lemma_contents(x);
    assert(contents(h.left).contains_key(l.key));
    assert forall|k: K| contents(l.left).contains_key(k) implies key_lt(k, h.key) by {
        assert(contents(h.left).contains_key(k));
    }
    assert forall|k: K| contents(l.right).contains_key(k) implies key_lt(k, h.key) by {
        assert(contents(h.left).contains_key(k));
    }
    assert(contents(Some(Box::new(x))) =~= contents(Some(Box::new(h))));
}

/// Makes a right-leaning red link lean to the left.
pub(crate) fn rotate_left<K: Ord, V>(mut h: Box<Node<K, V>>) -> (x: Box<Node<K, V>>)
    requires
        total_order::<K>(),
        h.right is Some,
        ordered(Some(h)),
        sized(h.left),
        sized(h.right),
        count(Some(h)) <= usize::MAX,
    ensures
        is_left_rotation(*h, *x),
        same_map(Some(h), Some(x)),
        sized(x.left),
        sized(x.right),
{
    proof {
        reveal_with_fuel(count, 3);
        reveal_with_fuel(sized, 2);
    }
    let ghost h0 = *h;
    let mut x = h.right.take().unwrap();
    h.right = x.left.take();
    x.color = h.color;
    x.size = h.size;
    h.color = Color::Red;
    h.size = size_node(&h.left) + size_node(&h.right) + 1;
    x.left = Some(h);
    proof {
        lemma_left_rotation(h0, *x);
    }
    x
}

/// Makes a left-leaning red link lean to the right.
pub(crate) fn rotate_right<K: Ord, V>(mut h: Box<Node<K, V>>) -> (x: Box<Node<K, V>>)
    requires
        total_order::<K>(),
        h.left is Some,
        ordered(Some(h)),
        sized(h.left),
        sized(h.right),
        count(Some(h)) <= usize::MAX,
    ensures
        is_right_rotation(*h, *x),
        same_map(Some(h), Some(x)),
        sized(x.left),
        sized(x.right),
{
    proof {
        reveal_with_fuel(count, 3);
        reveal_with_fuel(sized, 2);
    }
    let ghost h0 = *h;
    let mut x = h.left.take().unwrap();
    h.left = x.right.take();
    x.color = h.color;
    x.size = h.size;
    h.color = Color::Red;
    h.size = size_node(&h.left) + size_node(&h.right) + 1;
    x.right = Some(h);
    proof {
        lemma_right_rotation(h0, *x);
    }
    x
}

/// `x` is `h` with the colours of the node and of both its children flipped.
pub(crate) open spec fn is_color_flip<K, V>(h: Node<K, V>, x: Node<K, V>) -> bool {
    &&& x.key == h.key
    &&& x.value == h.value
    &&& x.size == h.size
    &&& x.color == opposite(h.color)
    &&& x.left == toggled(h.left)
    &&& x.right == toggled(h.right)
}

/// Colours do not matter to the pairs, the node counts or the order.
pub(crate) proof fn lemma_color_flip<K: Ord, V>(h: Node<K, V>, x: Node<K, V>)
    requires
        is_color_flip(h, x),
    ensures
        contents(Some(Box::new(x))) == contents(Some(Box::new(h))),
        count(Some(Box::new(x))) == count(Some(Box::new(h))),
        ordered(Some(Box::new(x))) == ordered(Some(Box::new(h))),
        sized(x.left) == sized(h.left),
        sized(x.right) == sized(h.right),
{
    reveal_with_fuel(contents, 2);
    reveal_with_fuel(count, 2);
    reveal_with_fuel(ordered, 2);
    reveal_with_fuel(sized, 2);
    assert(contents(x.left) == contents(h.left));
    assert(contents(x.right) == contents(h.right));
    assert(ordered(x.left) == ordered(h.left));
    assert(ordered(x.right) == ordered(h.right));
}

/// Flips the colours of `h` and of its two children.
pub(crate) fn flip_colors<K: Ord, V>(h: &mut Box<Node<K, V>>)
    ensures
        is_color_flip(**old(h), **final(h)),
        contents(Some(*final(h))) == contents(Some(*old(h))),
        count(Some(*final(h))) == count(Some(*old(h))),
        ordered(Some(*final(h))) == ordered(Some(*old(h))),
        sized(final(h).left) == sized(old(h).left),
        sized(final(h).right) == sized(old(h).right),
{
    let ghost h0 = **h;
    h.color = match h.color {
        Color::Red => Color::Black,
        Color::Black => Color::Red,
    };
    if let Some(ref mut left) = h.left {
        left.color = match left.color {
            Color::Red => Color::Black,
            Color::Black => Color::Red,
        };
    }
    if let Some(ref mut right) = h.right {
        right.color = match right.color {
            Color::Red => Color::Black,
            Color::Black => Color::Red,
        };
    }
    proof {
        lemma_color_flip(h0, **h);
    }
}

/// What `balance` asks of the colours around `h`: the right side obeys the
/// colour rules, and the left side does too, except that under a black `h`
/// with a right child that is not red, the left child may be a red node with
/// a red left child.
pub(crate) open spec fn mendable<K, V>(h: Node<K, V>) -> bool {
    &&& balanced(Some(Box::new(h)))
    &&& left_leaning(h.right)
    &&& if h.color is Red {
        left_leaning(h.left) && !(red(h.left) && red(h.right))
    } else {
        left_leaning(h.left) || (nearly_left_leaning(h.left) && !red(h.right))
    }
}

/// What `balance` achieves: black height and black balance are kept, the
/// colour rules hold below the root, and at the root too unless `h` was a red
/// node with a red child.
pub(crate) open spec fn mended<K, V>(h: Node<K, V>, r: Node<K, V>) -> bool {
    &&& balanced(Some(Box::new(r)))
    &&& black_height(Some(Box::new(r))) == black_height(Some(Box::new(h)))
    &&& nearly_left_leaning(Some(Box::new(r)))
    &&& (h.color is Black || (!red(h.left) && !red(h.right))) ==> left_leaning(Some(Box::new(r)))
    &&& (h.color is Black && !(red(h.left) && red(h.right)) && left_leaning(h.left)) ==> r.color is Black
}

/// Restores the colour rules at `h` after one of its subtrees has changed:
/// turns a lone red right link to the left, breaks up two red links in a row
/// on the left, splits a node with two red children, and sets the size.
pub(crate) fn balance<K: Ord, V>(mut h: Box<Node<K, V>>) -> (r: Box<Node<K, V>>)
    requires
        total_order::<K>(),
        ordered(Some(h)),
        sized(h.left),
        sized(h.right),
        count(Some(h)) <= usize::MAX,
        mendable(*h),
    ensures
        same_map(Some(h), Some(r)),
        sized(Some(r)),
        mended(*h, *r),
{
    proof {
        reveal_with_fuel(black_height, 3);
        reveal_with_fuel(balanced, 3);
        reveal_with_fuel(left_leaning, 3);
        reveal_with_fuel(count, 2);
    }
    if is_red(&h.right) && !is_red(&h.left) {
        h = rotate_left(h);
    }
    if is_red(&h.left) && is_red(&h.left.as_ref().unwrap().left) {
        h = rotate_right(h);
    }
    if is_red(&h.left) && is_red(&h.right) {
        flip_colors(&mut h);
    }
    h.size = size_node(&h.left) + size_node(&h.right) + 1;
    h
}

/// A subtree that a deletion may descend into: black-balanced, with the
/// colour rules holding below its root, and with a red link at hand, either
/// the one into the root or exactly one of those to its children.
pub(crate) open spec fn deletable<K, V>(t: Link<K, V>) -> bool {
    match t {
        None => false,
        Some(n) => {
            &&& balanced(t)
            &&& left_leaning(n.left)
            &&& left_leaning(n.right)
            &&& if n.color is Red {
                !red(n.left) && !red(n.right)
            } else {
                red(n.left) != red(n.right)
            }
        }
    }
}

/// What a deletion leaves of a subtree `t`: the colour rules hold again, black
/// height and black balance are kept, and a black root link stays black.
pub(crate) open spec fn restored<K, V>(t: Link<K, V>, r: Link<K, V>) -> bool {
    &&& left_leaning(r)
    &&& balanced(r)
    &&& black_height(r) == black_height(t)
    &&& !red(t) ==> !red(r)
}

/// A deletion that finds a red left child rotates it to the right: the new
/// root is black, and the old root hangs red on its right, ready for the
/// deletion to descend into.
pub(crate) proof fn lemma_rotated_for_delete<K, V>(h: Node<K, V>, x: Node<K, V>)
    requires
        deletable(Some(Box::new(h))),
        red(h.left),
        is_right_rotation(h, x),
    ensures
        x.color is Black,
        balanced(Some(Box::new(x))),
        black_height(Some(Box::new(x))) == black_height(Some(Box::new(h))),
        left_leaning(x.left),
        !red(x.left),
        deletable(x.right),
        red(x.right),
        !red(x.right.unwrap().right),
{
    reveal_with_fuel(black_height, 3);
    reveal_with_fuel(balanced, 3);
    reveal_with_fuel(left_leaning, 3);
}

/// Makes the left child of the red node `h`, or one of that child's children,
/// red, borrowing from the right sibling where that one has a red link to
/// spare.
pub(crate) fn move_red_left<K: Ord, V>(mut h: Box<Node<K, V>>) -> (r: Box<Node<K, V>>)
    requires
        total_order::<K>(),
        ordered(Some(h)),
        sized(h.left),
        sized(h.right),
        count(Some(h)) <= usize::MAX,
        deletable(Some(h)),
        h.color is Red,
        h.left is Some,
        !red(h.left.unwrap().left),
    ensures
        same_map(Some(h), Some(r)),
        sized(r.left),
        sized(r.right),
        r.key == h.key || key_lt(h.key, r.key),
        balanced(Some(r)),
        black_height(Some(r)) == black_height(Some(h)),
        deletable(r.left),
        !red(r.left.unwrap().right),
        left_leaning(r.right),
        r.color is Red ==> !red(r.left) && !red(r.right),
{
    proof {
        lemma_total_order::<K>();
        reveal_with_fuel(black_height, 4);
        reveal_with_fuel(balanced, 4);
        reveal_with_fuel(left_leaning, 4);
        reveal_with_fuel(count, 3);
        reveal_with_fuel(ordered, 2);
        reveal_with_fuel(sized, 2);
    }
    flip_colors(&mut h);
    if is_red(&h.right.as_ref().unwrap().left) {
        proof {
            lemma_contents(*h.right.unwrap());
            lemma_contents(*h.right.unwrap().left.unwrap());
            assert(contents(h.right).contains_key(h.right.unwrap().left.unwrap().key));
        }
        h.right = Some(rotate_right(h.right.take().unwrap()));
        h = rotate_left(h);
        flip_colors(&mut h);
    }
    h
}

/// Makes the right child of the red node `h`, or one of that child's
/// children, red, borrowing from the left sibling where that one has a red
/// link to spare.
pub(crate) fn move_red_right<K: Ord, V>(mut h: Box<Node<K, V>>) -> (r: Box<Node<K, V>>)
    requires
        total_order::<K>(),
        ordered(Some(h)),
        sized(h.left),
        sized(h.right),
        count(Some(h)) <= usize::MAX,
        deletable(Some(h)),
        h.color is Red,
        h.right is Some,
        !red(h.right.unwrap().left),
    ensures
        same_map(Some(h), Some(r)),
        sized(r.left),
        sized(r.right),
        r.key == h.key || key_lt(r.key, h.key),
        balanced(Some(r)),
        black_height(Some(r)) == black_height(Some(h)),
        deletable(r.right),
        red(r.right.unwrap().right) ==> r.right.unwrap().key == h.key,
        left_leaning(r.left),
        r.color is Red ==> !red(r.left) && !red(r.right),
{
    proof {
        lemma_total_order::<K>();
        reveal_with_fuel(black_height, 4);
        reveal_with_fuel(balanced, 4);
        reveal_with_fuel(left_leaning, 4);
        reveal_with_fuel(count, 3);
        reveal_with_fuel(ordered, 2);
        reveal_with_fuel(sized, 2);
    }
    flip_colors(&mut h);
    if is_red(&h.left.as_ref().unwrap().left) {
        proof {
            lemma_contents(*h.left.unwrap());
            assert(contents(h.left).contains_key(h.left.unwrap().key));
        }
        h = rotate_right(h);
        flip_colors(&mut h);
    }
    h
}

} // verus!
