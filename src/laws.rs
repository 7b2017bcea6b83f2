use vstd::prelude::*;
use vstd::arithmetic::power::lemma_pow0;
use vstd::arithmetic::power2::{lemma_pow2, lemma_pow2_adds, lemma_pow2_strictly_increases, lemma_pow2_unfold, pow2};
use vstd::arithmetic::mul::lemma_mul_inequality;
use crate::node::{black_height, height, is_red, keys, rb_valid, Node};
use crate::order::{lemma_sorted_same_keys, sorted};
use crate::tree::Tree;

verus! {

/// The in-order keys of a well-formed tree never decrease.
pub proof fn lemma_in_order_sorted(t: Tree)
    requires
        t.well_formed(),
    ensures
        sorted(t@),
{
}

/// After `key` is inserted, a search finds it, and a search for any other key gives
/// what it gave before.
pub proof fn lemma_search_after_insert(before: Tree, after: Tree, key: i64, other: i64)
    requires
        after@.to_multiset() == before@.to_multiset().insert(key),
    ensures
        after@.contains(key),
        other != key ==> (after@.contains(other) <==> before@.contains(other)),
{
    broadcast use vstd::seq_lib::group_to_multiset_ensures;

    assert(after@.to_multiset().count(key) > 0);
    assert(after@.to_multiset().count(other) > 0 <==> before@.to_multiset().count(other) > 0
        || other == key);
}

/// After a key held once is deleted, a search no longer finds it, and a search for any
/// other key gives what it gave before.
pub proof fn lemma_search_after_delete(before: Tree, after: Tree, key: i64, other: i64)
    requires
        after@.to_multiset() == before@.to_multiset().remove(key),
        before@.to_multiset().count(key) <= 1,
    ensures
        !after@.contains(key),
        other != key ==> (after@.contains(other) <==> before@.contains(other)),
{
    broadcast use vstd::seq_lib::group_to_multiset_ensures;

    assert(after@.to_multiset().count(key) == 0);
    assert(other != key ==> after@.to_multiset().count(other) == before@.to_multiset().count(
        other,
    ));
}

/// Inserting a key and then deleting it leaves the same in-order keys as before.
pub proof fn lemma_insert_delete_round_trip(t0: Tree, t1: Tree, t2: Tree, key: i64)
    requires
        t0.well_formed(),
        t2.well_formed(),
        t1@.to_multiset() == t0@.to_multiset().insert(key),
        t2@.to_multiset() == t1@.to_multiset().remove(key),
    ensures
        t2@ == t0@,
{
    assert(t2@.to_multiset() =~= t0@.to_multiset());
    lemma_sorted_same_keys(t2@, t0@);
}

proof fn lemma_size_black_height(t: Option<Box<Node>>)
    requires
        rb_valid(t),
    ensures
        pow2(black_height(t)) <= keys(t).len() + 1,
    decreases t,
{
    match t {
        None => {
            lemma_pow2(0);
            lemma_pow0(2);
        },
        Some(n) => {
            lemma_size_black_height(n.left);
            lemma_size_black_height(n.right);
            if n.color == crate::node::NodeColor::Black {
                lemma_pow2_unfold(black_height(t));
            }
        },
    }
}

proof fn lemma_height_black_height(t: Option<Box<Node>>)
    requires
        rb_valid(t),
    ensures
        height(t) <= 2 * black_height(t) + if is_red(t) {
            1int
        } else {
            0int
        },
    decreases t,
{
    if let Some(n) = t {
        lemma_height_black_height(n.left);
        lemma_height_black_height(n.right);
    }
}

/// The height of a well-formed tree of `n` keys is at most `2·log₂(n + 1)`, stated
/// without logarithms: `2^height <= (n + 1)^2`.
pub proof fn lemma_height_bound(t: Tree)
    requires
        t.well_formed(),
    ensures
        pow2(height(t.root)) <= (t@.len() + 1) * (t@.len() + 1),
{
    let b = black_height(t.root);
    let n1: int = t@.len() as int + 1;
    lemma_size_black_height(t.root);
    lemma_height_black_height(t.root);
    lemma_pow2_adds(b, b);
    if height(t.root) < b + b {
        lemma_pow2_strictly_increases(height(t.root), b + b);
    }
    lemma_mul_inequality(pow2(b) as int, n1, pow2(b) as int);
    lemma_mul_inequality(pow2(b) as int, n1, n1);
    assert(pow2(b) * n1 == n1 * pow2(b)) by (nonlinear_arith);
}

} // verus!
