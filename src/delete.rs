use vstd::prelude::*;
use crate::node::{
    black_height, is_red, is_red_node, keys, left_rotate, rb_valid, right_rotate, Node,
    NodeColor,
};
use crate::order::{
    lemma_remove_above, lemma_remove_below, lemma_remove_middle, lemma_replace_by_successor,
    lemma_sorted_join, sorted,
};

verus! {

pub open spec fn color_weight(c: NodeColor) -> nat {
    if c == NodeColor::Black {
        1nat
    } else {
        0nat
    }
}

/// A black sibling whose near (left) child is red and far child black is rotated
/// right, so that its far child becomes red.
fn sibling_near_to_far_right(w: Box<Node>) -> (res: Box<Node>)
    requires
        rb_valid(Some(w)),
        w.color == NodeColor::Black,
        is_red(w.left),
        !is_red(w.right),
    ensures
        keys(Some(res)) == keys(Some(w)),
        rb_valid(Some(res)),
        black_height(Some(res)) == black_height(Some(w)),
        res.color == NodeColor::Black,
        is_red(res.right),
{
    proof {
        reveal_with_fuel(keys, 3);
        reveal_with_fuel(rb_valid, 3);
        reveal_with_fuel(black_height, 3);
    }
    let Node { key: w_key, color: _, left: w_left, right: w_right } = *w;
    let mut near = w_left.unwrap();
    near.set_color(NodeColor::Black);
    let w2 = Box::new(Node { key: w_key, color: NodeColor::Red, left: Some(near), right: w_right });
    let res = right_rotate(w2);
    assert(keys(Some(res)) =~= keys(Some(w)));
    res
}

/// A black sibling with a red far (right) child is rotated above the parent; it takes
/// the parent's color and both its new children become black. The deficiency is gone.
fn sibling_far_red_left(color: NodeColor, l: Option<Box<Node>>, key: i64, w: Box<Node>) -> (res: Box<Node>)
    requires
        rb_valid(l),
        rb_valid(Some(w)),
        !is_red(l),
        w.color == NodeColor::Black,
        is_red(w.right),
        black_height(l) + 1 == black_height(Some(w)),
    ensures
        keys(Some(res)) == keys(l) + seq![key] + keys(Some(w)),
        rb_valid(Some(res)),
        black_height(Some(res)) == black_height(Some(w)) + color_weight(color),
        res.color == color,
{
    proof {
        reveal_with_fuel(keys, 3);
        reveal_with_fuel(rb_valid, 3);
        reveal_with_fuel(black_height, 3);
    }
    let Node { key: w_key, color: _, left: w_left, right: w_right } = *w;
    let mut far = w_right.unwrap();
    far.set_color(NodeColor::Black);
    let w3 = Box::new(Node { key: w_key, color, left: w_left, right: Some(far) });
    let g = Box::new(Node { key, color: NodeColor::Black, left: l, right: Some(w3) });
    let res = left_rotate(g);
    assert(keys(Some(res)) =~= keys(l) + seq![key] + keys(Some(w)));
    res
}

/// Repairs a node whose left subtree `l` has lost one black node to a deletion, when
/// the sibling `w` is black. Returns the repaired node and whether it is now one black
/// node short as a whole (when the deficiency was pushed up through a black node).
fn delete_fixup_left_black(color: NodeColor, l: Option<Box<Node>>, key: i64, w: Box<Node>) -> (res: (Box<Node>, bool))
    requires
        rb_valid(l),
        rb_valid(Some(w)),
        black_height(l) + 1 == black_height(Some(w)),
        !is_red(l),
        w.color == NodeColor::Black,
    ensures
        keys(Some(res.0)) == keys(l) + seq![key] + keys(Some(w)),
        rb_valid(Some(res.0)),
        black_height(Some(res.0)) + (if res.1 { 1nat } else { 0nat }) == black_height(Some(w))
            + color_weight(color),
        res.1 ==> res.0.color == NodeColor::Black,
        res.0.color == NodeColor::Red ==> color == NodeColor::Red,
        color == NodeColor::Red ==> !res.1,
{
    if !is_red_node(&w.left) && !is_red_node(&w.right) {
        // both of the sibling's children black: take one black off both sides
        proof {
            reveal_with_fuel(keys, 2);
            reveal_with_fuel(rb_valid, 3);
            reveal_with_fuel(black_height, 3);
        }
        let mut w = w;
        w.set_color(NodeColor::Red);
        let res = Box::new(Node { key, color: NodeColor::Black, left: l, right: Some(w) });
        (res, color == NodeColor::Black)
    } else {
        let mut w = w;
        if !is_red_node(&w.right) {
            w = sibling_near_to_far_right(w);
        }
        (sibling_far_red_left(color, l, key, w), false)
    }
}

/// Repairs a node whose left subtree `l` has lost one black node to a deletion; `r` is
/// the sibling. Returns the repaired node and whether it is now one black node short.
fn delete_fixup_left(color: NodeColor, l: Option<Box<Node>>, key: i64, r: Option<Box<Node>>) -> (res: (Box<Node>, bool))
    requires
        rb_valid(l),
        rb_valid(r),
        black_height(l) + 1 == black_height(r),
        !is_red(l),
        color == NodeColor::Red ==> !is_red(r),
    ensures
        keys(Some(res.0)) == keys(l) + seq![key] + keys(r),
        rb_valid(Some(res.0)),
        black_height(Some(res.0)) + (if res.1 { 1nat } else { 0nat }) == black_height(r)
            + color_weight(color),
        res.1 ==> res.0.color == NodeColor::Black,
        res.0.color == NodeColor::Red ==> color == NodeColor::Red,
{
    let w = r.unwrap();
    if w.color == NodeColor::Red {
        // red sibling: rotate it above the parent, then repair below it with a black sibling
        let Node { key: w_key, color: _, left: w_left, right: w_right } = *w;
        assert(rb_valid(w_left) && rb_valid(w_right) && !is_red(w_left) && !is_red(w_right));
        assert(black_height(w_left) == black_height(r));
        let near = w_left.unwrap();
        let (inner, short) = delete_fixup_left_black(NodeColor::Red, l, key, near);
        assert(!short);
        let res = Box::new(Node { key: w_key, color: NodeColor::Black, left: Some(inner), right: w_right });
        proof {
            reveal_with_fuel(keys, 2);
            reveal_with_fuel(black_height, 2);
            assert(keys(Some(res)) =~= keys(l) + seq![key] + keys(r));
        }
        (res, false)
    } else {
        delete_fixup_left_black(color, l, key, w)
    }
}

/// Mirror image of `sibling_near_to_far_right`: a black sibling whose near (right)
/// child is red and far child black is rotated left.
fn sibling_near_to_far_left(w: Box<Node>) -> (res: Box<Node>)
    requires
        rb_valid(Some(w)),
        w.color == NodeColor::Black,
        is_red(w.right),
        !is_red(w.left),
    ensures
        keys(Some(res)) == keys(Some(w)),
        rb_valid(Some(res)),
        black_height(Some(res)) == black_height(Some(w)),
        res.color == NodeColor::Black,
        is_red(res.left),
{
    proof {
        reveal_with_fuel(keys, 3);
        reveal_with_fuel(rb_valid, 3);
        reveal_with_fuel(black_height, 3);
    }
    let Node { key: w_key, color: _, left: w_left, right: w_right } = *w;
    let mut near = w_right.unwrap();
    near.set_color(NodeColor::Black);
    let w2 = Box::new(Node { key: w_key, color: NodeColor::Red, left: w_left, right: Some(near) });
    let res = left_rotate(w2);
    assert(keys(Some(res)) =~= keys(Some(w)));
    res
}

/// Mirror image of `sibling_far_red_left`, for a deficient right subtree.
fn sibling_far_red_right(color: NodeColor, w: Box<Node>, key: i64, r: Option<Box<Node>>) -> (res: Box<Node>)
    requires
        rb_valid(r),
        rb_valid(Some(w)),
        !is_red(r),
        w.color == NodeColor::Black,
        is_red(w.left),
        black_height(r) + 1 == black_height(Some(w)),
    ensures
        keys(Some(res)) == keys(Some(w)) + seq![key] + keys(r),
        rb_valid(Some(res)),
        black_height(Some(res)) == black_height(Some(w)) + color_weight(color),
        res.color == color,
{
    proof {
        reveal_with_fuel(keys, 3);
        reveal_with_fuel(rb_valid, 3);
        reveal_with_fuel(black_height, 3);
    }
    let Node { key: w_key, color: _, left: w_left, right: w_right } = *w;
    let mut far = w_left.unwrap();
    far.set_color(NodeColor::Black);
    let w3 = Box::new(Node { key: w_key, color, left: Some(far), right: w_right });
    let g = Box::new(Node { key, color: NodeColor::Black, left: Some(w3), right: r });
    let res = right_rotate(g);
    assert(keys(Some(res)) =~= keys(Some(w)) + seq![key] + keys(r));
    res
}

/// Mirror image of `delete_fixup_left_black`, for a deficient right subtree `r`.
fn delete_fixup_right_black(color: NodeColor, w: Box<Node>, key: i64, r: Option<Box<Node>>) -> (res: (Box<Node>, bool))
    requires
        rb_valid(r),
        rb_valid(Some(w)),
        black_height(r) + 1 == black_height(Some(w)),
        !is_red(r),
        w.color == NodeColor::Black,
    ensures
        keys(Some(res.0)) == keys(Some(w)) + seq![key] + keys(r),
        rb_valid(Some(res.0)),
        black_height(Some(res.0)) + (if res.1 { 1nat } else { 0nat }) == black_height(Some(w))
            + color_weight(color),
        res.1 ==> res.0.color == NodeColor::Black,
        res.0.color == NodeColor::Red ==> color == NodeColor::Red,
        color == NodeColor::Red ==> !res.1,
{
    if !is_red_node(&w.left) && !is_red_node(&w.right) {
        proof {
            reveal_with_fuel(keys, 2);
            reveal_with_fuel(rb_valid, 3);
            reveal_with_fuel(black_height, 3);
        }
        let mut w = w;
        w.set_color(NodeColor::Red);
        let res = Box::new(Node { key, color: NodeColor::Black, left: Some(w), right: r });
        (res, color == NodeColor::Black)
    } else {
        let mut w = w;
        if !is_red_node(&w.left) {
            w = sibling_near_to_far_left(w);
        }
        (sibling_far_red_right(color, w, key, r), false)
    }
}

/// Mirror image of `delete_fixup_left`: the right subtree `r` has lost one black node.
fn delete_fixup_right(color: NodeColor, l: Option<Box<Node>>, key: i64, r: Option<Box<Node>>) -> (res: (Box<Node>, bool))
    requires
        rb_valid(l),
        rb_valid(r),
        black_height(r) + 1 == black_height(l),
        !is_red(r),
        color == NodeColor::Red ==> !is_red(l),
    ensures
        keys(Some(res.0)) == keys(l) + seq![key] + keys(r),
        rb_valid(Some(res.0)),
        black_height(Some(res.0)) + (if res.1 { 1nat } else { 0nat }) == black_height(l)
            + color_weight(color),
        res.1 ==> res.0.color == NodeColor::Black,
        res.0.color == NodeColor::Red ==> color == NodeColor::Red,
{
    let w = l.unwrap();
    if w.color == NodeColor::Red {
        let Node { key: w_key, color: _, left: w_left, right: w_right } = *w;
        assert(rb_valid(w_left) && rb_valid(w_right) && !is_red(w_left) && !is_red(w_right));
        assert(black_height(w_right) == black_height(l));
        let near = w_right.unwrap();
        let (inner, short) = delete_fixup_right_black(NodeColor::Red, near, key, r);
        assert(!short);
        let res = Box::new(Node { key: w_key, color: NodeColor::Black, left: w_left, right: Some(inner) });
        proof {
            reveal_with_fuel(keys, 2);
            reveal_with_fuel(black_height, 2);
            assert(keys(Some(res)) =~= keys(l) + seq![key] + keys(r));
        }
        (res, false)
    } else {
        delete_fixup_right_black(color, w, key, r)
    }
}

/// Reattaches a left subtree after a deletion below it, repairing the node when the
/// subtree came back one black node short.
fn rejoin_left(color: NodeColor, l: Option<Box<Node>>, key: i64, r: Option<Box<Node>>, short: bool) -> (res: (Box<Node>, bool))
    requires
        rb_valid(l),
        rb_valid(r),
        black_height(l) + (if short { 1nat } else { 0nat }) == black_height(r),
        short ==> !is_red(l),
        color == NodeColor::Red ==> !is_red(l) && !is_red(r),
    ensures
        keys(Some(res.0)) == keys(l) + seq![key] + keys(r),
        rb_valid(Some(res.0)),
        black_height(Some(res.0)) + (if res.1 { 1nat } else { 0nat }) == black_height(r)
            + color_weight(color),
        res.1 ==> res.0.color == NodeColor::Black,
        res.0.color == NodeColor::Red ==> color == NodeColor::Red,
{
    if short {
        delete_fixup_left(color, l, key, r)
    } else {
        let res = Box::new(Node { key, color, left: l, right: r });
        proof {
            reveal_with_fuel(black_height, 2);
        }
        (res, false)
    }
}

/// Mirror image of `rejoin_left`.
fn rejoin_right(color: NodeColor, l: Option<Box<Node>>, key: i64, r: Option<Box<Node>>, short: bool) -> (res: (Box<Node>, bool))
    requires
        rb_valid(l),
        rb_valid(r),
        black_height(r) + (if short { 1nat } else { 0nat }) == black_height(l),
        short ==> !is_red(r),
        color == NodeColor::Red ==> !is_red(l) && !is_red(r),
    ensures
        keys(Some(res.0)) == keys(l) + seq![key] + keys(r),
        rb_valid(Some(res.0)),
        black_height(Some(res.0)) + (if res.1 { 1nat } else { 0nat }) == black_height(l)
            + color_weight(color),
        res.1 ==> res.0.color == NodeColor::Black,
        res.0.color == NodeColor::Red ==> color == NodeColor::Red,
{
    if short {
        delete_fixup_right(color, l, key, r)
    } else {
        let res = Box::new(Node { key, color, left: l, right: r });
        proof {
            reveal_with_fuel(black_height, 2);
        }
        (res, false)
    }
}

/// Takes out a node of `color` that has at most the one child `child`: the child, if
/// any, is a red leaf and takes the node's place, turned black. Returns the remaining
/// subtree and whether it is one black node short.
fn splice_out(color: NodeColor, child: Option<Box<Node>>) -> (res: (Option<Box<Node>>, bool))
    requires
        rb_valid(child),
        black_height(child) == 0,
        color == NodeColor::Red ==> !is_red(child),
    ensures
        keys(res.0) == keys(child),
        rb_valid(res.0),
        black_height(res.0) + (if res.1 { 1nat } else { 0nat }) == color_weight(color),
        !is_red(res.0),
{
    proof {
        reveal_with_fuel(rb_valid, 2);
        reveal_with_fuel(black_height, 2);
    }
    match child {
        None => (None, color == NodeColor::Black),
        Some(c) => {
            let mut c = c;
            c.set_color(NodeColor::Black);
            (Some(c), false)
        },
    }
}

/// Removes the smallest key of a non-empty subtree. Returns the remaining subtree, the
/// key removed, and whether the subtree is now one black node short.
fn remove_min(t: Box<Node>) -> (res: (Option<Box<Node>>, i64, bool))
    requires
        rb_valid(Some(t)),
    ensures
        keys(res.0) == keys(Some(t)).drop_first(),
        res.1 == keys(Some(t))[0],
        rb_valid(res.0),
        black_height(res.0) + (if res.2 { 1nat } else { 0nat }) == black_height(Some(t)),
        res.2 ==> !is_red(res.0),
        is_red(res.0) ==> t.color == NodeColor::Red,
    decreases t,
{
    let ghost whole = keys(Some(t));
    proof {
        reveal_with_fuel(keys, 2);
    }
    let Node { key, color, left, right } = *t;
    match left {
        None => {
            let (rest, short) = splice_out(color, right);
            assert(keys(rest) =~= whole.drop_first());
            (rest, key, short)
        },
        Some(lb) => {
            let (l2, m, short) = remove_min(lb);
            let (n, short2) = rejoin_left(color, l2, key, right, short);
            assert(keys(Some(n)) =~= whole.drop_first());
            (Some(n), m, short2)
        },
    }
}

/// Removes one node holding `k` from a subtree, if there is one, and repairs the
/// subtree on the way back up. A node with two children is replaced by its in-order
/// successor, the minimum of its right subtree. Returns the remaining subtree and
/// whether it is now one black node short.
pub fn delete_from(t: Option<Box<Node>>, k: i64) -> (res: (Option<Box<Node>>, bool))
    requires
        rb_valid(t),
    ensures
        rb_valid(res.0),
        black_height(res.0) + (if res.1 { 1nat } else { 0nat }) == black_height(t),
        res.1 ==> !is_red(res.0),
        is_red(res.0) ==> is_red(t),
        sorted(keys(t)) ==> sorted(keys(res.0)),
        sorted(keys(t)) ==> keys(res.0).to_multiset() == keys(t).to_multiset().remove(k),
    decreases t,
{
    match t {
        None => {
            proof {
                broadcast use vstd::seq_lib::group_to_multiset_ensures;

                assert(keys(t).to_multiset().len() == 0);
                assert(keys(t).to_multiset() =~= keys(t).to_multiset().remove(k));
            }
            (None, false)
        },
        Some(n) => {
            let Node { key, color, left, right } = *n;
            let ghost ls = keys(left);
            let ghost rs = keys(right);
            assert(keys(t) == ls + seq![key] + rs);
            if k < key {
                let (l2, short) = delete_from(left, k);
                let (n2, short2) = rejoin_left(color, l2, key, right, short);
                proof {
                    if sorted(keys(t)) {
                        lemma_sorted_join(ls, key, rs);
                        lemma_remove_below(ls, key, rs, keys(l2), k);
                    }
                }
                (Some(n2), short2)
            } else if key < k {
                let (r2, short) = delete_from(right, k);
                let (n2, short2) = rejoin_right(color, left, key, r2, short);
                proof {
                    if sorted(keys(t)) {
                        lemma_sorted_join(ls, key, rs);
                        lemma_remove_above(ls, key, rs, keys(r2), k);
                    }
                }
                (Some(n2), short2)
            } else if left.is_none() {
                let res = splice_out(color, right);
                proof {
                    lemma_remove_middle(ls, key, rs);
                    lemma_sorted_join(ls, key, rs);
                    assert(ls + rs =~= rs);
                }
                res
            } else if right.is_none() {
                let res = splice_out(color, left);
                proof {
                    lemma_remove_middle(ls, key, rs);
                    lemma_sorted_join(ls, key, rs);
                    assert(ls + rs =~= ls);
                }
                res
            } else {
                let (r2, m, short) = remove_min(right.unwrap());
                let (n2, short2) = rejoin_right(color, left, m, r2, short);
                proof {
                    assert(rs =~= seq![m] + keys(r2));
                    if sorted(keys(t)) {
                        lemma_replace_by_successor(ls, key, m, keys(r2));
                    }
                }
                (Some(n2), short2)
            }
        },
    }
}

} // verus!
