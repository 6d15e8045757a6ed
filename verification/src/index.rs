//! The index: one entry per id, whatever order they came in.
use crate::entries::{cached_means_listed, distinct_entries, entry_with, find_entry, IndexEntry};
use crate::frontier::places;
use crate::model::SongId;
use crate::sorting::{sort_positions, sorting_keeps_elements};
use crate::text::{
    before, before_is_irreflexive, before_is_total, before_is_transitive, comes_before,
};
use vstd::prelude::*;
use vstd::relations::total_ordering;

verus! {

/// The index after an id was given an entry, or lost its own: no other id is touched.
pub open spec fn rebound(
    now: Seq<IndexEntry>,
    was: Seq<IndexEntry>,
    id: Seq<char>,
    entry: Option<IndexEntry>,
) -> bool {
    &&& distinct_entries(now)
    &&& entry_with(now, id) == entry
    &&& forall|other: Seq<char>|
        other != id ==> #[trigger] entry_with(now, other) == entry_with(was, other)
}

/// Two indexes that agree on every id.
pub open spec fn agree(a: Seq<IndexEntry>, b: Seq<IndexEntry>) -> bool {
    forall|id: Seq<char>| #[trigger] entry_with(a, id) == entry_with(b, id)
}

/// Entries in ascending order of their ids.
pub open spec fn ascending(entries: Seq<IndexEntry>) -> bool {
    forall|i: int, j: int|
        0 <= i < j < entries.len() ==> before(
            (#[trigger] entries[i]).id@,
            (#[trigger] entries[j]).id@,
        )
}

/// Among distinct entries, the one at a position is that of its id.
pub proof fn positions_are_entries(entries: Seq<IndexEntry>, i: int)
    requires
        distinct_entries(entries),
        0 <= i < entries.len(),
    ensures
        entry_with(entries, entries[i].id@) == Some(entries[i]),
{
    let id = entries[i].id@;
    cached_means_listed(entries, id);
    let j = choose|j: int|
        0 <= j < entries.len() && entry_with(entries, id) == Some(#[trigger] entries[j])
            && entries[j].id@ == id;
    if i < j {
        assert(entries[i].id@ != entries[j].id@);
    }
    if j < i {
        assert(entries[j].id@ != entries[i].id@);
    }
}

/// Distinct entries found at any position are found by their id.
pub proof fn lists_decide(a: Seq<IndexEntry>, b: Seq<IndexEntry>)
    requires
        distinct_entries(a),
        distinct_entries(b),
        forall|i: int| 0 <= i < a.len() ==> b.contains(#[trigger] a[i]),
        forall|i: int| 0 <= i < b.len() ==> a.contains(#[trigger] b[i]),
    ensures
        agree(a, b),
{
    assert forall|id: Seq<char>| #[trigger] entry_with(a, id) == entry_with(b, id) by {
        cached_means_listed(a, id);
        cached_means_listed(b, id);
        if entry_with(a, id) is Some {
            let i = choose|i: int|
                0 <= i < a.len() && entry_with(a, id) == Some(#[trigger] a[i]) && a[i].id@ == id;
            assert(b.contains(a[i]));
            let j = choose|j: int| 0 <= j < b.len() && b[j] == a[i];
            positions_are_entries(b, j);
        } else if entry_with(b, id) is Some {
            let i = choose|i: int|
                0 <= i < b.len() && entry_with(b, id) == Some(#[trigger] b[i]) && b[i].id@ == id;
            assert(a.contains(b[i]));
            let j = choose|j: int| 0 <= j < a.len() && a[j] == b[i];
            assert(a[j].id@ == id);
        }
    }
}

proof fn setting_rebinds(was: Seq<IndexEntry>, at: int, e: IndexEntry)
    requires
        distinct_entries(was),
        0 <= at < was.len(),
        was[at].id@ == e.id@,
    ensures
        rebound(was.update(at, e), was, e.id@, Some(e)),
{
    let now = was.update(at, e);
    assert forall|i: int, j: int| 0 <= i < j < now.len() implies (#[trigger] now[i]).id@ != (
    #[trigger] now[j]).id@ by {
        assert(was[i].id@ != was[j].id@);
    }
    positions_are_entries(now, at);
    assert forall|other: Seq<char>| other != e.id@ implies #[trigger] entry_with(now, other)
        == entry_with(was, other) by {
        cached_means_listed(now, other);
        cached_means_listed(was, other);
        if entry_with(now, other) is Some {
            let i = choose|i: int|
                0 <= i < now.len() && entry_with(now, other) == Some(#[trigger] now[i])
                    && now[i].id@ == other;
            assert(i != at);
            assert(was[i] == now[i]);
            positions_are_entries(was, i);
        } else if entry_with(was, other) is Some {
            let i = choose|i: int|
                0 <= i < was.len() && entry_with(was, other) == Some(#[trigger] was[i])
                    && was[i].id@ == other;
            assert(i != at);
            assert(now[i].id@ == other);
        }
    }
}

proof fn pushing_rebinds(was: Seq<IndexEntry>, e: IndexEntry)
    requires
        distinct_entries(was),
        entry_with(was, e.id@) is None,
    ensures
        rebound(was.push(e), was, e.id@, Some(e)),
{
    let now = was.push(e);
    cached_means_listed(was, e.id@);
    assert forall|i: int, j: int| 0 <= i < j < now.len() implies (#[trigger] now[i]).id@ != (
    #[trigger] now[j]).id@ by {
        if j == was.len() {
            assert(was[i].id@ != e.id@);
        } else {
            assert(was[i].id@ != was[j].id@);
        }
    }
    assert(now.drop_last() =~= was);
}

proof fn removing_rebinds(was: Seq<IndexEntry>, at: int)
    requires
        distinct_entries(was),
        0 <= at < was.len(),
    ensures
        rebound(was.remove(at), was, was[at].id@, None),
{
    let now = was.remove(at);
    let id = was[at].id@;
    assert forall|i: int, j: int| 0 <= i < j < now.len() implies (#[trigger] now[i]).id@ != (
    #[trigger] now[j]).id@ by {
        let a = if i < at {
            i
        } else {
            i + 1
        };
        let b = if j < at {
            j
        } else {
            j + 1
        };
        assert(now[i] == was[a] && now[j] == was[b]);
        assert(was[a].id@ != was[b].id@);
    }
    cached_means_listed(now, id);
    assert forall|i: int| 0 <= i < now.len() implies (#[trigger] now[i]).id@ != id by {
        let a = if i < at {
            i
        } else {
            i + 1
        };
        assert(now[i] == was[a]);
        if a < at {
            assert(was[a].id@ != was[at].id@);
        } else {
            assert(was[at].id@ != was[a].id@);
        }
    }
    assert forall|other: Seq<char>| other != id implies #[trigger] entry_with(now, other)
        == entry_with(was, other) by {
        cached_means_listed(now, other);
        cached_means_listed(was, other);
        if entry_with(now, other) is Some {
            let i = choose|i: int|
                0 <= i < now.len() && entry_with(now, other) == Some(#[trigger] now[i])
                    && now[i].id@ == other;
            let a = if i < at {
                i
            } else {
                i + 1
            };
            assert(now[i] == was[a]);
            positions_are_entries(was, a);
        } else if entry_with(was, other) is Some {
            let i = choose|i: int|
                0 <= i < was.len() && entry_with(was, other) == Some(#[trigger] was[i])
                    && was[i].id@ == other;
            let a = if i < at {
                i
            } else {
                i - 1
            };
            assert(now[a] == was[i]);
            assert(now[a].id@ == other);
        }
    }
}

/// Gives an id its entry, in place of one it had.
pub fn put_entry(index: &mut Vec<IndexEntry>, e: IndexEntry)
    requires
        distinct_entries(old(index)@),
    ensures
        rebound(final(index)@, old(index)@, e.id@, Some(e)),
{
    match find_entry(index, &e.id.0) {
        Some(at) => {
            proof {
                setting_rebinds(index@, at as int, e);
            }
            index.set(at, e);
        },
        None => {
            proof {
                pushing_rebinds(index@, e);
            }
            index.push(e);
        },
    }
}

/// Takes an id's entry out, and gives it back.
pub fn drop_entry(index: &mut Vec<IndexEntry>, id: &SongId) -> (r: Option<IndexEntry>)
    requires
        distinct_entries(old(index)@),
    ensures
        r == entry_with(old(index)@, id@),
        rebound(final(index)@, old(index)@, id@, None),
{
    match find_entry(index, &id.0) {
        Some(at) => {
            proof {
                removing_rebinds(index@, at as int);
            }
            Some(index.remove(at))
        },
        None => None,
    }
}

/// An id's entry.
pub fn get_entry<'a>(index: &'a Vec<IndexEntry>, id: &SongId) -> (r: Option<&'a IndexEntry>)
    ensures
        r is Some <==> entry_with(index@, id@) is Some,
        r is Some ==> entry_with(index@, id@) == Some(*r->0) && r->0.id@ == id@,
{
    match find_entry(index, &id.0) {
        Some(at) => Some(&index[at]),
        None => None,
    }
}

/// The order of ids over positions of the index.
pub open spec fn index_order(index: Seq<IndexEntry>) -> spec_fn(usize, usize) -> bool {
    |x: usize, y: usize|
        before(index[x as int].id@, index[y as int].id@) || (index[x as int].id@
            == index[y as int].id@ && x <= y)
}

proof fn index_order_is_total(index: Seq<IndexEntry>)
    ensures
        total_ordering(index_order(index)),
{
    let r = index_order(index);
    assert forall|x: usize, y: usize, z: usize| #[trigger] r(x, y) && #[trigger] r(y, z) implies r(
        x,
        z,
    ) by {
        let (a, b, c) = (index[x as int].id@, index[y as int].id@, index[z as int].id@);
        if before(a, b) && before(b, c) {
            before_is_transitive(a, b, c);
        }
    }
    assert forall|x: usize, y: usize| #[trigger] r(x, y) && #[trigger] r(y, x) implies x == y by {
        before_is_total(index[x as int].id@, index[y as int].id@);
        before_is_irreflexive(index[x as int].id@);
    }
    assert forall|x: usize, y: usize| #[trigger] r(x, y) || #[trigger] r(y, x) by {
        before_is_total(index[x as int].id@, index[y as int].id@);
    }
}

/// The entries in ascending order of their ids.
pub fn sorted_entries(index: &Vec<IndexEntry>) -> (r: Vec<IndexEntry>)
    requires
        distinct_entries(index@),
    ensures
        r@.len() == index@.len(),
        ascending(r@),
        distinct_entries(r@),
        agree(r@, index@),
{
    let n: usize = index.len();
    let mut start: Vec<usize> = Vec::new();
    for i in 0..n
        invariant
            start@ =~= places(i as nat),
    {
        start.push(i);
    }
    let ghost leq = index_order(index@);
    let goes_first = |x: usize, y: usize| -> (b: bool)
        requires
            x < index@.len(),
            y < index@.len(),
        ensures
            b == leq(x, y),
        {
            comes_before(index[x].id.0.as_str(), index[y].id.0.as_str()) || (index[x].id.0
                == index[y].id.0 && x <= y)
        };
    proof {
        index_order_is_total(index@);
        sorting_keeps_elements(start@, leq);
        assert(start@.no_duplicates());
    }
    let order: Vec<usize> = sort_positions(&start, goes_first, Ghost(leq));
    let mut out: Vec<IndexEntry> = Vec::new();
    for k in 0..n
        invariant
            n == index@.len(),
            order@.len() == n,
            start@ =~= places(n as nat),
            forall|x: usize| order@.contains(x) <==> start@.contains(x),
            out@ =~= Seq::new(k as nat, |j: int| index@[order@[j] as int]),
    {
        assert(order@.contains(order@[k as int]));
        assert(start@.contains(order@[k as int]));
        out.push(index[order[k]].clone());
    }
    proof {
        assert forall|i: int, j: int| 0 <= i < j < out@.len() implies before(
            (#[trigger] out@[i]).id@,
            (#[trigger] out@[j]).id@,
        ) by {
            let (x, y) = (order@[i], order@[j]);
            assert(order@.contains(x) && order@.contains(y));
            assert(start@.contains(x) && start@.contains(y));
            assert(x != y);
            assert(leq(x, y));
            if x < y {
                assert(index@[x as int].id@ != index@[y as int].id@);
            } else {
                assert(index@[y as int].id@ != index@[x as int].id@);
            }
        }
        assert forall|i: int, j: int| 0 <= i < j < out@.len() implies (
        #[trigger] out@[i]).id@ != (#[trigger] out@[j]).id@ by {
            before_is_irreflexive(out@[i].id@);
            assert(before(out@[i].id@, out@[j].id@));
        }
        assert forall|i: int| 0 <= i < out@.len() implies index@.contains(#[trigger] out@[i]) by {
            assert(order@.contains(order@[i]));
            assert(start@.contains(order@[i]));
            assert(out@[i] == index@[order@[i] as int]);
        }
        assert forall|i: int| 0 <= i < index@.len() implies out@.contains(#[trigger] index@[i]) by {
            assert(start@[i] == i as usize);
            assert(start@.contains(i as usize));
            assert(order@.contains(i as usize));
            let k = choose|k: int| 0 <= k < order@.len() && order@[k] == i as usize;
            assert(out@[k] == index@[i]);
        }
        lists_decide(out@, index@);
    }
    out
}

/// Two ascending lists that agree on every id are the same list.
pub proof fn sorted_entries_are_unique(a: Seq<IndexEntry>, b: Seq<IndexEntry>)
    requires
        ascending(a),
        ascending(b),
        agree(a, b),
    ensures
        a == b,
    decreases a.len(),
{
    if a.len() == 0 {
        if b.len() > 0 {
            assert(b[b.len() - 1].id@ == b.last().id@);
            assert(entry_with(b, b.last().id@) is Some);
            assert(entry_with(a, b.last().id@) is None);
        }
    } else {
        let (x, y) = (a.last().id@, b.last().id@);
        assert(entry_with(a, x) == Some(a.last()));
        cached_means_listed(b, x);
        let j = choose|j: int|
            0 <= j < b.len() && entry_with(b, x) == Some(#[trigger] b[j]) && b[j].id@ == x;
        assert(entry_with(b, y) == Some(b.last()));
        assert(entry_with(a, y) is Some);
        cached_means_listed(a, y);
        let i = choose|i: int|
            0 <= i < a.len() && entry_with(a, y) == Some(#[trigger] a[i]) && a[i].id@ == y;
        if x != y {
            assert(i != a.len() - 1 && j != b.len() - 1);
            assert(before(a[i].id@, a[a.len() - 1].id@));
            assert(before(b[j].id@, b[b.len() - 1].id@));
            before_is_transitive(x, y, x);
            before_is_irreflexive(x);
        }
        assert(a.last() == b.last());
        let (s, t) = (a.drop_last(), b.drop_last());
        assert forall|id: Seq<char>| #[trigger] entry_with(s, id) == entry_with(t, id) by {
            if id == x {
                cached_means_listed(s, id);
                cached_means_listed(t, id);
                before_is_irreflexive(x);
                assert forall|k: int| 0 <= k < s.len() implies (#[trigger] s[k]).id@ != x by {
                    assert(before(a[k].id@, a[a.len() - 1].id@));
                }
                assert forall|k: int| 0 <= k < t.len() implies (#[trigger] t[k]).id@ != x by {
                    assert(before(b[k].id@, b[b.len() - 1].id@));
                }
            } else {
                assert(entry_with(a, id) == entry_with(b, id));
            }
        }
        assert(ascending(s)) by {
            assert forall|i: int, j: int| 0 <= i < j < s.len() implies before(
                (#[trigger] s[i]).id@,
                (#[trigger] s[j]).id@,
            ) by {
                assert(before(a[i].id@, a[j].id@));
            }
        }
        assert(ascending(t)) by {
            assert forall|i: int, j: int| 0 <= i < j < t.len() implies before(
                (#[trigger] t[i]).id@,
                (#[trigger] t[j]).id@,
            ) by {
                assert(before(b[i].id@, b[j].id@));
            }
        }
        sorted_entries_are_unique(s, t);
        assert(a =~= s.push(a.last()));
        assert(b =~= t.push(b.last()));
    }
}

} // verus!
