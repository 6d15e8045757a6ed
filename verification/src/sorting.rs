//! Sorting positions by a rank that lives elsewhere.
use vstd::multiset::group_multiset_axioms;
use vstd::prelude::*;
use vstd::relations::{sorted_by, total_ordering};
use vstd::seq_lib::{group_to_multiset_ensures, lemma_sorted_unique, to_multiset_build};

verus! {

/// Putting one element in adds exactly that element.
proof fn inserting_adds_one(s: Seq<usize>, p: int, x: usize)
    requires
        0 <= p <= s.len(),
    ensures
        s.insert(p, x).to_multiset() == s.to_multiset().insert(x),
{
    broadcast use {group_to_multiset_ensures, group_multiset_axioms};

    let t = s.insert(p, x);
    assert(t.remove(p) =~= s);
    assert(t[p] == x);
    assert(t.contains(x));
    assert(t.to_multiset().count(x) > 0);
    assert(t.to_multiset() =~= s.to_multiset().insert(x));
}

/// Sorts positions into the order `leq`, which `f` decides for the positions at hand.
pub fn sort_positions<F: Fn(usize, usize) -> bool>(
    v: &Vec<usize>,
    f: F,
    Ghost(leq): Ghost<spec_fn(usize, usize) -> bool>,
) -> (r: Vec<usize>)
    requires
        total_ordering(leq),
        forall|x: usize, y: usize|
            v@.contains(x) && v@.contains(y) ==> #[trigger] call_requires(f, (x, y)),
        forall|x: usize, y: usize, b: bool|
            v@.contains(x) && v@.contains(y) && #[trigger] call_ensures(f, (x, y), b) ==> b == leq(
                x,
                y,
            ),
    ensures
        r@ == v@.sort_by(leq),
{
    broadcast use {group_to_multiset_ensures, group_multiset_axioms};

    let mut r: Vec<usize> = Vec::new();
    for i in 0..v.len()
        invariant
            total_ordering(leq),
            forall|x: usize, y: usize|
                v@.contains(x) && v@.contains(y) ==> #[trigger] call_requires(f, (x, y)),
            forall|x: usize, y: usize, b: bool|
                v@.contains(x) && v@.contains(y) && #[trigger] call_ensures(f, (x, y), b) ==> b
                    == leq(x, y),
            r@.to_multiset() =~= v@.take(i as int).to_multiset(),
            r.len() == i,
            sorted_by(r@, leq),
            forall|k: int| 0 <= k < r@.len() ==> v@.contains(#[trigger] r@[k]),
    {
        let x: usize = v[i];
        assert(v@.contains(x));
        let mut p: usize = r.len();
        while p > 0 && !f(r[p - 1], x)
            invariant
                total_ordering(leq),
                v@.contains(x),
                forall|x: usize, y: usize|
                    v@.contains(x) && v@.contains(y) ==> #[trigger] call_requires(f, (x, y)),
                forall|x: usize, y: usize, b: bool|
                    v@.contains(x) && v@.contains(y) && #[trigger] call_ensures(f, (x, y), b)
                        ==> b == leq(x, y),
                p <= r.len(),
                forall|k: int| 0 <= k < r@.len() ==> v@.contains(#[trigger] r@[k]),
                forall|k: int| p <= k < r@.len() ==> leq(x, #[trigger] r@[k]),
            decreases p,
        {
            p = p - 1;
        }
        let ghost s = r@;
        assert forall|k: int| 0 <= k < p implies leq(#[trigger] s[k], x) by {
            assert(leq(s[p - 1], x));
            if k < p - 1 {
                assert(leq(s[k], s[p - 1]));
            }
        }
        r.insert(p, x);
        proof {
            inserting_adds_one(s, p as int, x);
            assert(v@.take(i + 1) =~= v@.take(i as int).push(x));
            to_multiset_build(v@.take(i as int), x);
            assert(r@ == s.insert(p as int, x));
            assert(forall|k: int| 0 <= k < p ==> #[trigger] r@[k] == s[k]);
            assert(r@[p as int] == x);
            assert(forall|k: int| p < k < r@.len() ==> #[trigger] r@[k] == s[k - 1]);
            assert forall|a: int, b: int| 0 <= a < b < r@.len() implies #[trigger] leq(r@[a], r@[b]) by {
                if a < p && b > p {
                    assert(leq(s[a], s[b - 1]));
                } else if a < p && b < p {
                    assert(leq(s[a], s[b]));
                } else if a > p {
                    assert(leq(s[a - 1], s[b - 1]));
                }
            }
        }
    }
    proof {
        assert(v@.take(v@.len() as int) =~= v@);
        v@.lemma_sort_by_ensures(leq);
        lemma_sorted_unique(r@, v@.sort_by(leq), leq);
    }
    r
}

/// A sorted sequence holds what the unsorted one held.
pub proof fn sorting_keeps_elements(v: Seq<usize>, leq: spec_fn(usize, usize) -> bool)
    requires
        total_ordering(leq),
    ensures
        v.sort_by(leq).len() == v.len(),
        sorted_by(v.sort_by(leq), leq),
        forall|x: usize| v.sort_by(leq).contains(x) <==> v.contains(x),
        v.no_duplicates() ==> v.sort_by(leq).no_duplicates(),
{
    broadcast use {group_to_multiset_ensures, group_multiset_axioms};

    v.lemma_sort_by_ensures(leq);
    let w = v.sort_by(leq);
    assert(v.to_multiset() == w.to_multiset());
    assert(w.len() == w.to_multiset().len());
    assert(v.len() == v.to_multiset().len());
    assert forall|x: usize| w.contains(x) <==> v.contains(x) by {
        assert(w.contains(x) <==> w.to_multiset().count(x) > 0);
        assert(v.contains(x) <==> v.to_multiset().count(x) > 0);
    }
    if v.no_duplicates() {
        v.lemma_multiset_has_no_duplicates();
        w.lemma_multiset_has_no_duplicates_conv();
    }
}

} // verus!
