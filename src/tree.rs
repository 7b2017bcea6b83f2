use vstd::prelude::*;
use crate::delete::delete_from;
use crate::insert::insert_into;
use crate::node::{
    black_height, is_red, keys, left_rotate, rb_valid, right_rotate, rotated_left,
    rotated_right, Node, NodeColor,
};
use crate::order::{
    all_ge, all_le, greatest_below, least_above, lemma_contains_join, lemma_greatest_below_join,
    lemma_least_above_join, lemma_sorted_join, sorted,
};

verus! {

/// A red-black tree of `i64` keys. Equal keys are kept, each in a node of its own.
#[derive(Debug)]
pub struct Tree {
    pub root: Option<Box<Node>>,
}

impl View for Tree {
    type V = Seq<i64>;

    /// The keys in order.
    open spec fn view(&self) -> Seq<i64> {
        keys(self.root)
    }
}

impl Tree {
    /// The red-black invariants: the root is black, red nodes have black children, all
    /// paths from a node down to an absent child meet the same number of black nodes;
    /// and the keys are in order.
    pub open spec fn well_formed(&self) -> bool {
        &&& rb_valid(self.root)
        &&& !is_red(self.root)
        &&& sorted(self@)
    }

    pub fn empty() -> (t: Tree)
        ensures
            t.well_formed(),
            t@ == Seq::<i64>::empty(),
    {
        Tree { root: None }
    }

    /// A tree holding `key` alone, in a black root.
    pub fn new(key: i64) -> (t: Tree)
        ensures
            t.well_formed(),
            t@ == seq![key],
    {
        let mut n = Node::new(key);
        n.set_color(NodeColor::Black);
        let t = Tree { root: Some(Box::new(n)) };
        proof {
            reveal_with_fuel(keys, 2);
            reveal_with_fuel(rb_valid, 2);
            reveal_with_fuel(black_height, 2);
            assert(t@ =~= seq![key]);
        }
        t
    }

    /// A tree whose root is `node`, as it stands: nothing is checked or repaired.
    pub fn new_from_node(node: Node) -> (t: Tree)
        ensures
            t.root == Some(Box::new(node)),
    {
        Tree { root: Some(Box::new(node)) }
    }

    /// Adds `key` (also when it is present already) and restores the invariants.
    pub fn insert(&mut self, key: i64)
        requires
            old(self).well_formed(),
        ensures
            final(self).well_formed(),
            final(self)@.to_multiset() == old(self)@.to_multiset().insert(key),
    {
        let root = self.root.take();
        let mut r = insert_into(root, key);
        r.set_color(NodeColor::Black);
        self.root = Some(r);
    }

    /// Removes one occurrence of `key`; does nothing when `key` is absent.
    pub fn delete(&mut self, key: i64)
        requires
            old(self).well_formed(),
        ensures
            final(self).well_formed(),
            final(self)@.to_multiset() == old(self)@.to_multiset().remove(key),
    {
        let root = self.root.take();
        let (r, _) = delete_from(root, key);
        self.root = r;
    }

    /// Rotates left at the root: its right child becomes the root.
    pub fn left_rotate(&mut self)
        requires
            old(self).root is Some,
            old(self).root.unwrap().right is Some,
        ensures
            final(self).root == Some(Box::new(rotated_left(*old(self).root.unwrap()))),
            final(self)@ == old(self)@,
    {
        let root = self.root.take().unwrap();
        self.root = Some(left_rotate(root));
    }

    /// Rotates right at the root: its left child becomes the root.
    pub fn right_rotate(&mut self)
        requires
            old(self).root is Some,
            old(self).root.unwrap().left is Some,
        ensures
            final(self).root == Some(Box::new(rotated_right(*old(self).root.unwrap()))),
            final(self)@ == old(self)@,
    {
        let root = self.root.take().unwrap();
        self.root = Some(right_rotate(root));
    }

    /// The keys in order, equal keys side by side.
    pub fn keys_in_order(&self) -> (r: Vec<i64>)
        ensures
            r@ == self@,
    {
        let mut v: Vec<i64> = Vec::new();
        push_in_order(&self.root, &mut v);
        assert(v@ =~= self@);
        v
    }

    pub fn search(&self, key: i64) -> (r: bool)
        requires
            self.well_formed(),
        ensures
            r == self@.contains(key),
    {
        subtree_contains(&self.root, key)
    }

    /// The smallest key, or `None` on an empty tree.
    pub fn minimum(&self) -> (r: Option<i64>)
        requires
            self.well_formed(),
        ensures
            self@.len() == 0 ==> r is None,
            self@.len() > 0 ==> r == Some(self@[0]),
            r matches Some(m) ==> self@.contains(m) && forall|i: int|
                0 <= i < self@.len() ==> m <= self@[i],
    {
        match &self.root {
            None => None,
            Some(n) => Some(leftmost(n)),
        }
    }

    /// The largest key, or `None` on an empty tree.
    pub fn maximum(&self) -> (r: Option<i64>)
        requires
            self.well_formed(),
        ensures
            self@.len() == 0 ==> r is None,
            self@.len() > 0 ==> r == Some(self@.last()),
            r matches Some(m) ==> self@.contains(m) && forall|i: int|
                0 <= i < self@.len() ==> self@[i] <= m,
    {
        match &self.root {
            None => None,
            Some(n) => Some(rightmost(n)),
        }
    }

    /// The smallest key greater than `key`; `None` when `key` is not in the tree or
    /// no key is greater.
    pub fn successor(&self, key: i64) -> (r: Option<i64>)
        requires
            self.well_formed(),
        ensures
            !self@.contains(key) ==> r is None,
            r is Some ==> least_above(self@, key, r.unwrap()),
            r is None && self@.contains(key) ==> forall|i: int|
                0 <= i < self@.len() ==> self@[i] <= key,
    {
        if !subtree_contains(&self.root, key) {
            return None;
        }
        subtree_least_above(&self.root, key)
    }

    /// The largest key smaller than `key`; `None` when `key` is not in the tree or no
    /// key is smaller.
    pub fn predecessor(&self, key: i64) -> (r: Option<i64>)
        requires
            self.well_formed(),
        ensures
            !self@.contains(key) ==> r is None,
            r is Some ==> greatest_below(self@, key, r.unwrap()),
            r is None && self@.contains(key) ==> forall|i: int|
                0 <= i < self@.len() ==> key <= self@[i],
    {
        if !subtree_contains(&self.root, key) {
            return None;
        }
        subtree_greatest_below(&self.root, key)
    }
}

fn push_in_order(t: &Option<Box<Node>>, v: &mut Vec<i64>)
    ensures
        final(v)@ == old(v)@ + keys(*t),
    decreases t,
{
    match t {
        None => {
            assert(old(v)@ + keys(*t) =~= old(v)@);
        },
        Some(n) => {
            push_in_order(&n.left, v);
            v.push(n.key);
            push_in_order(&n.right, v);
            assert(final(v)@ =~= old(v)@ + keys(*t));
        },
    }
}

fn subtree_contains(t: &Option<Box<Node>>, k: i64) -> (r: bool)
    requires
        sorted(keys(*t)),
    ensures
        r == keys(*t).contains(k),
    decreases t,
{
    match t {
        None => false,
        Some(n) => {
            proof {
                lemma_sorted_join(keys(n.left), n.key, keys(n.right));
                lemma_contains_join(keys(n.left), n.key, keys(n.right), k);
            }
            if k < n.key {
                subtree_contains(&n.left, k)
            } else if n.key < k {
                subtree_contains(&n.right, k)
            } else {
                true
            }
        },
    }
}

fn leftmost(n: &Box<Node>) -> (r: i64)
    ensures
        r == keys(Some(*n))[0],
    decreases n,
{
    proof {
        reveal_with_fuel(keys, 2);
    }
    match &n.left {
        None => n.key,
        Some(l) => leftmost(l),
    }
}

fn rightmost(n: &Box<Node>) -> (r: i64)
    ensures
        r == keys(Some(*n)).last(),
    decreases n,
{
    proof {
        reveal_with_fuel(keys, 2);
    }
    match &n.right {
        None => n.key,
        Some(r) => rightmost(r),
    }
}

fn subtree_least_above(t: &Option<Box<Node>>, k: i64) -> (r: Option<i64>)
    requires
        sorted(keys(*t)),
    ensures
        r is Some ==> least_above(keys(*t), k, r.unwrap()),
        r is None ==> all_le(keys(*t), k),
    decreases t,
{
    match t {
        None => None,
        Some(n) => {
            proof {
                lemma_sorted_join(keys(n.left), n.key, keys(n.right));
            }
            let r = if k < n.key {
                match subtree_least_above(&n.left, k) {
                    Some(m) => Some(m),
                    None => Some(n.key),
                }
            } else {
                subtree_least_above(&n.right, k)
            };
            proof {
                lemma_least_above_join(keys(n.left), n.key, keys(n.right), k, r.unwrap_or(0));
            }
            r
        },
    }
}

fn subtree_greatest_below(t: &Option<Box<Node>>, k: i64) -> (r: Option<i64>)
    requires
        sorted(keys(*t)),
    ensures
        r is Some ==> greatest_below(keys(*t), k, r.unwrap()),
        r is None ==> all_ge(keys(*t), k),
    decreases t,
{
    match t {
        None => None,
        Some(n) => {
            proof {
                lemma_sorted_join(keys(n.left), n.key, keys(n.right));
            }
            let r = if n.key < k {
                match subtree_greatest_below(&n.right, k) {
                    Some(m) => Some(m),
                    None => Some(n.key),
                }
            } else {
                subtree_greatest_below(&n.left, k)
            };
            proof {
                lemma_greatest_below_join(keys(n.left), n.key, keys(n.right), k, r.unwrap_or(0));
            }
            r
        },
    }
}

} // verus!
