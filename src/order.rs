use vstd::prelude::*;

verus! {

/// Non-decreasing order of a key sequence.
pub open spec fn sorted(s: Seq<i64>) -> bool {
    forall|i: int, j: int| 0 <= i < j < s.len() ==> s[i] <= s[j]
}

pub open spec fn all_le(s: Seq<i64>, x: i64) -> bool {
    forall|i: int| 0 <= i < s.len() ==> s[i] <= x
}

pub open spec fn all_ge(s: Seq<i64>, x: i64) -> bool {
    forall|i: int| 0 <= i < s.len() ==> x <= s[i]
}

/// `a`, then `x`, then `b` is sorted exactly when each part is and `x` separates them.
pub proof fn lemma_sorted_join(a: Seq<i64>, x: i64, b: Seq<i64>)
    ensures
        sorted(a + seq![x] + b) <==> (sorted(a) && sorted(b) && all_le(a, x) && all_ge(b, x)),
{
    let s = a + seq![x] + b;
    if sorted(s) {
        assert forall|i: int, j: int| 0 <= i < j < a.len() implies a[i] <= a[j] by {
            assert(s[i] == a[i] && s[j] == a[j]);
        }
        assert forall|i: int, j: int| 0 <= i < j < b.len() implies b[i] <= b[j] by {
            assert(s[a.len() + 1 + i] == b[i] && s[a.len() + 1 + j] == b[j]);
        }
        assert forall|i: int| 0 <= i < a.len() implies a[i] <= x by {
            assert(s[i] == a[i] && s[a.len() as int] == x);
        }
        assert forall|i: int| 0 <= i < b.len() implies x <= b[i] by {
            assert(s[a.len() + 1 + i] == b[i] && s[a.len() as int] == x);
        }
    }
    if sorted(a) && sorted(b) && all_le(a, x) && all_ge(b, x) {
        assert forall|i: int, j: int| 0 <= i < j < s.len() implies s[i] <= s[j] by {
            if j < a.len() {
            } else if j == a.len() {
            } else if i < a.len() {
                assert(a[i] <= x && x <= b[j - a.len() - 1]);
            } else if i == a.len() {
            } else {
            }
        }
    }
}

/// Every element of `s2` is either `k` or an element of `s1`: an upper bound of both carries over.
pub proof fn lemma_le_carries(s1: Seq<i64>, s2: Seq<i64>, k: i64, x: i64)
    requires
        all_le(s1, x),
        k <= x,
        forall|e: i64| s2.to_multiset().count(e) > 0 ==> e == k || s1.to_multiset().count(e) > 0,
    ensures
        all_le(s2, x),
{
    broadcast use vstd::seq_lib::group_to_multiset_ensures;

    assert forall|i: int| 0 <= i < s2.len() implies s2[i] <= x by {
        let e = s2[i];
        assert(s2.contains(e));
        assert(s2.to_multiset().count(e) > 0);
        if e != k {
            assert(s1.to_multiset().count(e) > 0);
            assert(s1.contains(e));
        }
    }
}

/// Every element of `s2` is either `k` or an element of `s1`: a lower bound of both carries over.
pub proof fn lemma_ge_carries(s1: Seq<i64>, s2: Seq<i64>, k: i64, x: i64)
    requires
        all_ge(s1, x),
        x <= k,
        forall|e: i64| s2.to_multiset().count(e) > 0 ==> e == k || s1.to_multiset().count(e) > 0,
    ensures
        all_ge(s2, x),
{
    broadcast use vstd::seq_lib::group_to_multiset_ensures;

    assert forall|i: int| 0 <= i < s2.len() implies x <= s2[i] by {
        let e = s2[i];
        assert(s2.contains(e));
        assert(s2.to_multiset().count(e) > 0);
        if e != k {
            assert(s1.to_multiset().count(e) > 0);
            assert(s1.contains(e));
        }
    }
}

/// Two sorted sequences that hold the same keys, counted with multiplicity, are equal.
pub proof fn lemma_sorted_same_keys(s1: Seq<i64>, s2: Seq<i64>)
    requires
        sorted(s1),
        sorted(s2),
        s1.to_multiset() == s2.to_multiset(),
    ensures
        s1 == s2,
    decreases s1.len(),
{
    broadcast use vstd::seq_lib::group_to_multiset_ensures;

    assert(s1.len() == s1.to_multiset().len());
    assert(s2.len() == s2.to_multiset().len());
    if s1.len() > 0 {
        let a = s1[0];
        let b = s2[0];
        assert(s2.contains(b));
        assert(s2.to_multiset().count(b) > 0);
        assert(s1.to_multiset().count(b) > 0);
        assert(s1.contains(b));
        assert(s1.contains(a));
        assert(s1.to_multiset().count(a) > 0);
        assert(s2.to_multiset().count(a) > 0);
        assert(s2.contains(a));
        assert(a <= b);
        assert(b <= a);
        let t1 = s1.remove(0);
        let t2 = s2.remove(0);
        assert(t1.to_multiset() == t2.to_multiset());
        assert(sorted(t1)) by {
            assert forall|i: int, j: int| 0 <= i < j < t1.len() implies t1[i] <= t1[j] by {
                assert(t1[i] == s1[i + 1] && t1[j] == s1[j + 1]);
            }
        }
        assert(sorted(t2)) by {
            assert forall|i: int, j: int| 0 <= i < j < t2.len() implies t2[i] <= t2[j] by {
                assert(t2[i] == s2[i + 1] && t2[j] == s2[j + 1]);
            }
        }
        lemma_sorted_same_keys(t1, t2);
        assert(s1 =~= seq![a] + t1);
        assert(s2 =~= seq![b] + t2);
    } else {
        assert(s1 =~= s2);
    }
}

/// Removing `k`, smaller than `x`, from the part left of `x` removes it from the whole,
/// and keeps the whole sorted.
pub proof fn lemma_remove_below(a: Seq<i64>, x: i64, b: Seq<i64>, a2: Seq<i64>, k: i64)
    requires
        sorted(a + seq![x] + b),
        k < x,
        sorted(a2),
        a2.to_multiset() == a.to_multiset().remove(k),
    ensures
        sorted(a2 + seq![x] + b),
        (a2 + seq![x] + b).to_multiset() == (a + seq![x] + b).to_multiset().remove(k),
{
    broadcast use vstd::seq_lib::group_to_multiset_ensures, vstd::seq_lib::lemma_multiset_commutative;

    lemma_sorted_join(a, x, b);
    assert(forall|e: i64| a2.to_multiset().count(e) > 0 ==> e == x || a.to_multiset().count(e) > 0);
    lemma_le_carries(a, a2, x, x);
    lemma_sorted_join(a2, x, b);
    if b.contains(k) {
        let i = choose|i: int| 0 <= i < b.len() && b[i] == k;
        assert(x <= b[i]);
    }
    assert(b.to_multiset().count(k) == 0);
    assert((a2 + seq![x] + b).to_multiset() =~= (a + seq![x] + b).to_multiset().remove(k));
}

/// Mirror image of `lemma_remove_below`, for `k` greater than `x`.
pub proof fn lemma_remove_above(a: Seq<i64>, x: i64, b: Seq<i64>, b2: Seq<i64>, k: i64)
    requires
        sorted(a + seq![x] + b),
        x < k,
        sorted(b2),
        b2.to_multiset() == b.to_multiset().remove(k),
    ensures
        sorted(a + seq![x] + b2),
        (a + seq![x] + b2).to_multiset() == (a + seq![x] + b).to_multiset().remove(k),
{
    broadcast use vstd::seq_lib::group_to_multiset_ensures, vstd::seq_lib::lemma_multiset_commutative;

    lemma_sorted_join(a, x, b);
    assert(forall|e: i64| b2.to_multiset().count(e) > 0 ==> e == x || b.to_multiset().count(e) > 0);
    lemma_ge_carries(b, b2, x, x);
    lemma_sorted_join(a, x, b2);
    if a.contains(k) {
        let i = choose|i: int| 0 <= i < a.len() && a[i] == k;
        assert(a[i] <= x);
    }
    assert(a.to_multiset().count(k) == 0);
    assert((a + seq![x] + b2).to_multiset() =~= (a + seq![x] + b).to_multiset().remove(k));
}

/// Replacing `x` by the first element `m` of the part right of it, and dropping that
/// element there, removes `x` and keeps the whole sorted.
pub proof fn lemma_replace_by_successor(a: Seq<i64>, x: i64, m: i64, rest: Seq<i64>)
    requires
        sorted(a + seq![x] + (seq![m] + rest)),
    ensures
        sorted(a + seq![m] + rest),
        (a + seq![m] + rest).to_multiset() == (a + seq![x] + (seq![m] + rest)).to_multiset().remove(x),
{
    broadcast use vstd::seq_lib::group_to_multiset_ensures, vstd::seq_lib::lemma_multiset_commutative;

    lemma_sorted_join(a, x, seq![m] + rest);
    lemma_sorted_join(Seq::empty(), m, rest);
    assert(Seq::<i64>::empty() + seq![m] + rest =~= seq![m] + rest);
    assert((seq![m] + rest)[0] == m);
    lemma_sorted_join(a, m, rest);
    assert((a + seq![m] + rest).to_multiset() =~= (a + seq![x] + (seq![m] + rest)).to_multiset().remove(x));
}

/// Dropping `x` from between `a` and `b`, when one of them is empty, leaves the other.
pub proof fn lemma_remove_middle(a: Seq<i64>, x: i64, b: Seq<i64>)
    ensures
        (a + b).to_multiset() == (a + seq![x] + b).to_multiset().remove(x),
{
    broadcast use vstd::seq_lib::group_to_multiset_ensures, vstd::seq_lib::lemma_multiset_commutative;

    assert((a + b).to_multiset() =~= (a + seq![x] + b).to_multiset().remove(x));
}

/// Where `k` can stand in a sorted sequence split at `x`.
pub proof fn lemma_contains_join(a: Seq<i64>, x: i64, b: Seq<i64>, k: i64)
    requires
        sorted(a + seq![x] + b),
    ensures
        (a + seq![x] + b).contains(k) <==> (a.contains(k) || k == x || b.contains(k)),
        k < x ==> !b.contains(k),
        x < k ==> !a.contains(k),
{
    let s = a + seq![x] + b;
    lemma_sorted_join(a, x, b);
    if s.contains(k) {
        let i = choose|i: int| 0 <= i < s.len() && s[i] == k;
        if i < a.len() {
            assert(a[i] == k);
        } else if i > a.len() {
            assert(b[i - a.len() - 1] == k);
        }
    }
    if a.contains(k) {
        let i = choose|i: int| 0 <= i < a.len() && a[i] == k;
        assert(s[i] == k);
    }
    if b.contains(k) {
        let i = choose|i: int| 0 <= i < b.len() && b[i] == k;
        assert(s[a.len() + 1 + i] == k);
    }
    if k == x {
        assert(s[a.len() as int] == k);
    }
}

/// `m` is the smallest element of `s` greater than `k`.
pub open spec fn least_above(s: Seq<i64>, k: i64, m: i64) -> bool {
    &&& s.contains(m)
    &&& k < m
    &&& forall|i: int| 0 <= i < s.len() && k < s[i] ==> m <= s[i]
}

/// `m` is the largest element of `s` smaller than `k`.
pub open spec fn greatest_below(s: Seq<i64>, k: i64, m: i64) -> bool {
    &&& s.contains(m)
    &&& m < k
    &&& forall|i: int| 0 <= i < s.len() && s[i] < k ==> s[i] <= m
}

/// How the smallest element above `k` of a sorted sequence split at `x` is found from
/// its parts.
pub proof fn lemma_least_above_join(a: Seq<i64>, x: i64, b: Seq<i64>, k: i64, m: i64)
    requires
        sorted(a + seq![x] + b),
    ensures
        k < x && least_above(a, k, m) ==> least_above(a + seq![x] + b, k, m),
        k < x && all_le(a, k) ==> least_above(a + seq![x] + b, k, x),
        x <= k && least_above(b, k, m) ==> least_above(a + seq![x] + b, k, m),
        x <= k && all_le(b, k) ==> all_le(a + seq![x] + b, k),
{
    let s = a + seq![x] + b;
    lemma_sorted_join(a, x, b);
    lemma_contains_join(a, x, b, m);
    lemma_contains_join(a, x, b, x);
    assert forall|i: int| 0 <= i < s.len() implies (i < a.len() ==> s[i] == a[i]) && (i
        == a.len() ==> s[i] == x) && (i > a.len() ==> s[i] == b[i - a.len() - 1]) by {}
    if k < x && least_above(a, k, m) {
        assert forall|i: int| 0 <= i < s.len() && k < s[i] implies m <= s[i] by {
            if i >= a.len() {
                let j = choose|j: int| 0 <= j < a.len() && a[j] == m;
                assert(a[j] <= x);
            }
        }
    }
    if x <= k && least_above(b, k, m) {
        assert forall|i: int| 0 <= i < s.len() && k < s[i] implies m <= s[i] by {
            if i < a.len() {
                assert(a[i] <= x);
            }
        }
    }
}

/// How the largest element below `k` of a sorted sequence split at `x` is found from
/// its parts.
pub proof fn lemma_greatest_below_join(a: Seq<i64>, x: i64, b: Seq<i64>, k: i64, m: i64)
    requires
        sorted(a + seq![x] + b),
    ensures
        x < k && greatest_below(b, k, m) ==> greatest_below(a + seq![x] + b, k, m),
        x < k && all_ge(b, k) ==> greatest_below(a + seq![x] + b, k, x),
        k <= x && greatest_below(a, k, m) ==> greatest_below(a + seq![x] + b, k, m),
        k <= x && all_ge(a, k) ==> all_ge(a + seq![x] + b, k),
{
    let s = a + seq![x] + b;
    lemma_sorted_join(a, x, b);
    lemma_contains_join(a, x, b, m);
    lemma_contains_join(a, x, b, x);
    assert forall|i: int| 0 <= i < s.len() implies (i < a.len() ==> s[i] == a[i]) && (i
        == a.len() ==> s[i] == x) && (i > a.len() ==> s[i] == b[i - a.len() - 1]) by {}
    if x < k && greatest_below(b, k, m) {
        assert forall|i: int| 0 <= i < s.len() && s[i] < k implies s[i] <= m by {
            if i <= a.len() {
                let j = choose|j: int| 0 <= j < b.len() && b[j] == m;
                assert(x <= b[j]);
            }
        }
    }
    if k <= x && greatest_below(a, k, m) {
        assert forall|i: int| 0 <= i < s.len() && s[i] < k implies s[i] <= m by {
            if i > a.len() {
                assert(x <= b[i - a.len() - 1]);
            }
        }
    }
}

} // verus!
