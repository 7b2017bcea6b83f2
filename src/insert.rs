use vstd::prelude::*;
use crate::node::{
    almost_valid, black_height, is_red, is_red_node, keys, left_rotate, rb_valid, right_rotate, Node,
    NodeColor,
};
use crate::order::{lemma_ge_carries, lemma_le_carries, lemma_sorted_join, sorted};


verus! {

/// Reattaches a left subtree that insertion has changed under a node of `color`,
/// repairing a red node with a red child below a black grandparent: by recoloring
/// when the uncle is red, by one or two rotations when it is black.
fn insert_fixup_left(color: NodeColor, l: Box<Node>, key: i64, r: Option<Box<Node>>) -> (res: Box<Node>)
    requires
        black_height(Some(l)) == black_height(r),
        rb_valid(r),
        rb_valid(Some(l)) || (l.color == NodeColor::Red && almost_valid(*l)),
        color == NodeColor::Red ==> !is_red(r) && rb_valid(Some(l)),
    ensures
        keys(Some(res)) == keys(Some(l)) + seq![key] + keys(r),
        black_height(Some(res)) == black_height(Some(l)) + if color == NodeColor::Black {
            1nat
        } else {
            0nat
        },
        color == NodeColor::Black ==> rb_valid(Some(res)),
        color == NodeColor::Red ==> rb_valid(Some(res)) || (res.color == NodeColor::Red
            && almost_valid(*res)),
{
    proof {
        reveal_with_fuel(keys, 3);
        reveal_with_fuel(rb_valid, 3);
        reveal_with_fuel(black_height, 3);
    }
    if color == NodeColor::Black && l.color == NodeColor::Red && (is_red_node(&l.left)
        || is_red_node(&l.right)) {
        if is_red_node(&r) {
            // the uncle is red: push the grandparent's black down one level
            let mut l = l;
            l.set_color(NodeColor::Black);
            let mut u = r.unwrap();
            u.set_color(NodeColor::Black);
            Box::new(Node { key, color: NodeColor::Red, left: Some(l), right: Some(u) })
        } else {
            let mut l = l;
            if is_red_node(&l.right) {
                // inner grandchild: turn it into the outer one
                l = left_rotate(l);
            }
            // outer grandchild: recolor, then rotate at the grandparent
            l.set_color(NodeColor::Black);
            let g = Box::new(Node { key, color: NodeColor::Red, left: Some(l), right: r });
            let res = right_rotate(g);
            assert(keys(Some(res)) =~= keys(Some(l)) + seq![key] + keys(r));
            res
        }
    } else {
        Box::new(Node { key, color, left: Some(l), right: r })
    }
}

/// Mirror image of `insert_fixup_left`, for a right subtree that insertion has changed.
fn insert_fixup_right(color: NodeColor, l: Option<Box<Node>>, key: i64, r: Box<Node>) -> (res: Box<Node>)
    requires
        black_height(l) == black_height(Some(r)),
        rb_valid(l),
        rb_valid(Some(r)) || (r.color == NodeColor::Red && almost_valid(*r)),
        color == NodeColor::Red ==> !is_red(l) && rb_valid(Some(r)),
    ensures
        keys(Some(res)) == keys(l) + seq![key] + keys(Some(r)),
        black_height(Some(res)) == black_height(l) + if color == NodeColor::Black {
            1nat
        } else {
            0nat
        },
        color == NodeColor::Black ==> rb_valid(Some(res)),
        color == NodeColor::Red ==> rb_valid(Some(res)) || (res.color == NodeColor::Red
            && almost_valid(*res)),
{
    proof {
        reveal_with_fuel(keys, 3);
        reveal_with_fuel(rb_valid, 3);
        reveal_with_fuel(black_height, 3);
    }
    if color == NodeColor::Black && r.color == NodeColor::Red && (is_red_node(&r.left)
        || is_red_node(&r.right)) {
        if is_red_node(&l) {
            let mut u = l.unwrap();
            u.set_color(NodeColor::Black);
            let mut r = r;
            r.set_color(NodeColor::Black);
            Box::new(Node { key, color: NodeColor::Red, left: Some(u), right: Some(r) })
        } else {
            let mut r = r;
            if is_red_node(&r.left) {
                r = right_rotate(r);
            }
            r.set_color(NodeColor::Black);
            let g = Box::new(Node { key, color: NodeColor::Red, left: l, right: Some(r) });
            let res = left_rotate(g);
            assert(keys(Some(res)) =~= keys(l) + seq![key] + keys(Some(r)));
            res
        }
    } else {
        Box::new(Node { key, color, left: l, right: Some(r) })
    }
}

/// Inserts `k` into a subtree as a red leaf, going left of smaller keys and right of
/// others, and repairs red-red violations on the way back up. The result may be a red
/// node with a red child only when the subtree's own root was red.
pub fn insert_into(t: Option<Box<Node>>, k: i64) -> (r: Box<Node>)
    requires
        rb_valid(t),
    ensures
        keys(Some(r)).to_multiset() == keys(t).to_multiset().insert(k),
        sorted(keys(t)) ==> sorted(keys(Some(r))),
        black_height(Some(r)) == black_height(t),
        rb_valid(Some(r)) || (r.color == NodeColor::Red && almost_valid(*r)),
        !is_red(t) ==> rb_valid(Some(r)),
    decreases t,
{
    broadcast use vstd::seq_lib::group_to_multiset_ensures, vstd::seq_lib::lemma_multiset_commutative;

    match t {
        None => {
            let r = Box::new(Node::new(k));
            proof {
                reveal_with_fuel(keys, 2);
                assert(keys(Some(r)) =~= seq![k]);
                assert(seq![k] =~= Seq::<i64>::empty().push(k));
            }
            r
        },
        Some(n) => {
            let Node { key, color, left, right } = *n;
            proof {
                lemma_sorted_join(keys(left), key, keys(right));
            }
            if k < key {
                let l = insert_into(left, k);
                let res = insert_fixup_left(color, l, key, right);
                proof {
                    let a = keys(Some(l));
                    assert(forall|e: i64| a.to_multiset().count(e) > 0 ==> e == k || keys(left).to_multiset().count(e) > 0);
                    if sorted(keys(t)) {
                        lemma_le_carries(keys(left), a, k, key);
                        lemma_sorted_join(a, key, keys(right));
                    }
                    assert(keys(Some(res)).to_multiset() =~= keys(t).to_multiset().insert(k));
                }
                res
            } else {
                let r = insert_into(right, k);
                let res = insert_fixup_right(color, left, key, r);
                proof {
                    let b = keys(Some(r));
                    assert(forall|e: i64| b.to_multiset().count(e) > 0 ==> e == k || keys(right).to_multiset().count(e) > 0);
                    if sorted(keys(t)) {
                        lemma_ge_carries(keys(right), b, k, key);
                        lemma_sorted_join(keys(left), key, b);
                    }
                    assert(keys(Some(res)).to_multiset() =~= keys(t).to_multiset().insert(k));
                }
                res
            }
        },
    }
}

} // verus!
