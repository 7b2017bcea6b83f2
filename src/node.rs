use vstd::prelude::*;

verus! {

/// The two colors of a node; an absent child counts as black.
#[derive(Clone, Copy, Debug, PartialEq, Eq, Structural)]
pub enum NodeColor {
    Red,
    Black,
}

/// A tree node that owns its two subtrees. `None` plays the part of the black sentinel.
#[derive(Debug)]
pub struct Node {
    pub key: i64,
    pub color: NodeColor,
    pub left: Option<Box<Node>>,
    pub right: Option<Box<Node>>,
}

/// In-order sequence of the keys of a subtree.
pub open spec fn keys(t: Option<Box<Node>>) -> Seq<i64>
    decreases t,
{
    match t {
        None => Seq::empty(),
        Some(n) => keys(n.left) + seq![n.key] + keys(n.right),
    }
}

pub open spec fn is_red(t: Option<Box<Node>>) -> bool {
    match t {
        None => false,
        Some(n) => n.color == NodeColor::Red,
    }
}

/// Number of black nodes on the leftmost path, the node itself included.
pub open spec fn black_height(t: Option<Box<Node>>) -> nat
    decreases t,
{
    match t {
        None => 0,
        Some(n) => black_height(n.left) + if n.color == NodeColor::Black {
            1nat
        } else {
            0nat
        },
    }
}

/// Red nodes have black children, and both children of each node have the same
/// black-height, so that every path to an absent child meets as many black nodes.
pub open spec fn rb_valid(t: Option<Box<Node>>) -> bool
    decreases t,
{
    match t {
        None => true,
        Some(n) => {
            &&& rb_valid(n.left)
            &&& rb_valid(n.right)
            &&& black_height(n.left) == black_height(n.right)
            &&& (n.color == NodeColor::Red ==> !is_red(n.left) && !is_red(n.right))
        },
    }
}

/// A node whose subtrees are valid and balanced, that may itself be a red node with
/// one red child: the shape insertion leaves behind before it is repaired one level up.
pub open spec fn almost_valid(n: Node) -> bool {
    &&& rb_valid(n.left)
    &&& rb_valid(n.right)
    &&& black_height(n.left) == black_height(n.right)
    &&& !(is_red(n.left) && is_red(n.right))
}

pub open spec fn height(t: Option<Box<Node>>) -> nat
    decreases t,
{
    match t {
        None => 0,
        Some(n) => 1 + vstd::math::max(height(n.left) as int, height(n.right) as int) as nat,
    }
}

/// The node after a left rotation: its right child takes its place.
pub open spec fn rotated_left(x: Node) -> Node {
    let y = *x.right.unwrap();
    Node {
        key: y.key,
        color: y.color,
        left: Some(Box::new(Node { key: x.key, color: x.color, left: x.left, right: y.left })),
        right: y.right,
    }
}

/// The node after a right rotation: its left child takes its place.
pub open spec fn rotated_right(y: Node) -> Node {
    let x = *y.left.unwrap();
    Node {
        key: x.key,
        color: x.color,
        left: x.left,
        right: Some(Box::new(Node { key: y.key, color: y.color, left: x.right, right: y.right })),
    }
}

impl Node {
    /// A red leaf holding `key`.
    pub fn new(key: i64) -> (r: Node)
        ensures
            r.key == key,
            r.color == NodeColor::Red,
            r.left is None,
            r.right is None,
    {
        Node { key, color: NodeColor::Red, left: None, right: None }
    }

    pub fn set_left_child(&mut self, child: Option<Box<Node>>)
        ensures
            final(self).left == child,
            final(self).right == old(self).right,
            final(self).key == old(self).key,
            final(self).color == old(self).color,
    {
        self.left = child;
    }

    pub fn set_right_child(&mut self, child: Option<Box<Node>>)
        ensures
            final(self).right == child,
            final(self).left == old(self).left,
            final(self).key == old(self).key,
            final(self).color == old(self).color,
    {
        self.right = child;
    }

    pub fn set_color(&mut self, color: NodeColor)
        ensures
            final(self).color == color,
            final(self).left == old(self).left,
            final(self).right == old(self).right,
            final(self).key == old(self).key,
    {
        self.color = color;
    }
}

pub fn is_red_node(t: &Option<Box<Node>>) -> (r: bool)
    ensures
        r == is_red(*t),
{
    match t {
        None => false,
        Some(n) => n.color == NodeColor::Red,
    }
}

/// Rotates left at `x`: `x`'s right child `y` takes `x`'s place, `x` becomes `y`'s left
/// child and takes `y`'s former left subtree as its right one. Keys keep their order.
pub fn left_rotate(x: Box<Node>) -> (r: Box<Node>)
    requires
        x.right is Some,
    ensures
        *r == rotated_left(*x),
        keys(Some(r)) == keys(Some(x)),
{
    let Node { key, color, left, right } = *x;
    let y = right.unwrap();
    let Node { key: y_key, color: y_color, left: y_left, right: y_right } = *y;
    let r = Box::new(
        Node {
            key: y_key,
            color: y_color,
            left: Some(Box::new(Node { key, color, left, right: y_left })),
            right: y_right,
        },
    );
    proof {
        reveal_with_fuel(keys, 2);
        assert(keys(Some(r)) =~= keys(Some(x)));
    }
    r
}

/// Rotates right at `y`: the mirror image of `left_rotate`.
pub fn right_rotate(y: Box<Node>) -> (r: Box<Node>)
    requires
        y.left is Some,
    ensures
        *r == rotated_right(*y),
        keys(Some(r)) == keys(Some(y)),
{
    let Node { key, color, left, right } = *y;
    let x = left.unwrap();
    let Node { key: x_key, color: x_color, left: x_left, right: x_right } = *x;
    let r = Box::new(
        Node {
            key: x_key,
            color: x_color,
            left: x_left,
            right: Some(Box::new(Node { key, color, left: x_right, right })),
        },
    );
    proof {
        reveal_with_fuel(keys, 2);
        assert(keys(Some(r)) =~= keys(Some(y)));
    }
    r
}

} // verus!
