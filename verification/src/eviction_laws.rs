//! How far evictions go: as far as they must, whole groups at a time, and no further.
use crate::budget::{capped, eviction_floor};
use crate::entries::IndexEntry;
use crate::model::SongId;
use crate::plan::{
    among, backfill_step, bulk_of, busy_ids, due, enlist_all, evictions, freed, gather,
    goes_before, ids_of, reclaim, run_end, run_end_is_ahead, take_from, unit_end, victim_key,
    victim_of, victims, Bulk, Fetch, PassInput, Victim,
};
use crate::plan_laws::{
    gather_is_sound, run_is_one_group, sound_taking, victims_are_the_evictable_entries, vs_fit,
};
use crate::score::weight;
use crate::victim_laws::the_longest_unplayed_goes_first;
use vstd::prelude::*;

verus! {

/// Two victims that go together: the same one, or members of one group.
pub open spec fn together(a: Victim, b: Victim) -> bool {
    a.at == b.at || (!(a.standing is Opportunistic) && a.standing == b.standing && a.group
        == b.group)
}

/// Victims in the order of their turn and group.
pub open spec fn by_turn(vs: Seq<Victim>) -> bool {
    forall|a: int, b: int|
        0 <= a < b < vs.len() ==> (#[trigger] vs[a]).standing.turn() < (
        #[trigger] vs[b]).standing.turn() || (vs[a].standing == vs[b].standing && vs[a].group
            <= vs[b].group)
}

/// Every victim before `e` is taken or busy.
spec fn settled(
    vs: Seq<Victim>,
    entries: Seq<IndexEntry>,
    busy: Set<Seq<char>>,
    got: Seq<usize>,
    e: int,
) -> bool {
    forall|k: int|
        0 <= k < e ==> busy.contains(entries[(#[trigger] vs[k]).at as int].id@) || among(
            vs,
            entries,
            got,
            entries[vs[k].at as int].id@,
        )
}

/// No group is cut at `e`.
spec fn boundary(vs: Seq<Victim>, e: int) -> bool {
    0 < e < vs.len() ==> vs[e - 1].standing is Opportunistic || vs[e - 1].standing != vs[e].standing
        || vs[e - 1].group != vs[e].group
}

proof fn among_grows(
    vs: Seq<Victim>,
    entries: Seq<IndexEntry>,
    a: Seq<usize>,
    b: Seq<usize>,
    id: Seq<char>,
)
    requires
        a.len() <= b.len(),
        b.take(a.len() as int) == a,
        among(vs, entries, a, id),
    ensures
        among(vs, entries, b, id),
{
    let k = choose|k: int|
        0 <= k < a.len() && entries[vs[(#[trigger] a[k]) as int].at as int].id@ == id;
    assert(b.take(a.len() as int)[k] == b[k]);
    assert(entries[vs[b[k] as int].at as int].id@ == id);
}

proof fn run_ends_at_a_boundary(vs: Seq<Victim>, i: int, j: int)
    requires
        0 <= i < j <= vs.len(),
        vs[j - 1].standing == vs[i].standing,
        vs[j - 1].group == vs[i].group,
    ensures
        boundary(vs, run_end(vs, i, j)),
    decreases vs.len() - j,
{
    if j < vs.len() && vs[j].standing == vs[i].standing && vs[j].group == vs[i].group {
        run_ends_at_a_boundary(vs, i, j + 1);
    }
}

/// The taking from `i` on settles everything up to some boundary, and stops there for cause.
proof fn taking_extent(
    vs: Seq<Victim>,
    entries: Seq<IndexEntry>,
    busy: Set<Seq<char>>,
    evicting: bool,
    need: int,
    got: Seq<usize>,
    i: int,
) -> (e: int)
    requires
        0 <= i <= vs.len() <= usize::MAX,
        sound_taking(vs, entries, busy, evicting, got),
        forall|k: int| 0 <= k < got.len() ==> (#[trigger] got[k]) < i,
        settled(vs, entries, busy, got, i),
        boundary(vs, i),
    ensures
        ({
            let t = take_from(vs, entries, busy, evicting, need, got, i);
            &&& 0 <= e <= vs.len()
            &&& forall|k: int| 0 <= k < t.len() ==> (#[trigger] t[k]) < e
            &&& settled(vs, entries, busy, t, e)
            &&& boundary(vs, e)
            &&& freed(vs, entries, t) >= need || e == vs.len() || (!evicting
                && vs[e].standing is Resident)
        }),
    decreases vs.len() - i,
{
    if i >= vs.len() || freed(vs, entries, got) >= need || (!evicting
        && vs[i].standing is Resident) {
        i
    } else {
        run_end_is_ahead(vs, i, i + 1);
        run_is_one_group(vs, i, i + 1);
        run_ends_at_a_boundary(vs, i, i + 1);
        let j = unit_end(vs, i);
        let g = gather(vs, entries, busy, evicting, got, i, j);
        gather_is_sound(vs, entries, busy, evicting, got, i, j);
        assert forall|k: int| 0 <= k < j implies busy.contains(
            entries[(#[trigger] vs[k]).at as int].id@,
        ) || among(vs, entries, g, entries[vs[k].at as int].id@) by {
            let id = entries[vs[k].at as int].id@;
            if k < i {
                if !busy.contains(id) {
                    among_grows(vs, entries, got, g, id);
                }
            } else if g.contains(k as usize) {
                let m = choose|m: int| 0 <= m < g.len() && g[m] == k as usize;
                assert(entries[vs[g[m] as int].at as int].id@ == id);
            }
        }
        taking_extent(vs, entries, busy, evicting, need, g, j)
    }
}

proof fn freed_grows(vs: Seq<Victim>, entries: Seq<IndexEntry>, got: Seq<usize>, p: int)
    requires
        0 <= p <= got.len(),
    ensures
        freed(vs, entries, got.take(p)) <= freed(vs, entries, got),
    decreases got.len() - p,
{
    if p < got.len() {
        freed_grows(vs, entries, got, p + 1);
        assert(got.take(p + 1).drop_last() =~= got.take(p));
    } else {
        assert(got.take(p) =~= got);
    }
}

/// What one unit adds to a taking belongs together.
proof fn units_are_together(
    vs: Seq<Victim>,
    entries: Seq<IndexEntry>,
    busy: Set<Seq<char>>,
    evicting: bool,
    got: Seq<usize>,
    i: int,
)
    requires
        0 <= i < vs.len() <= usize::MAX,
        evicting || !(vs[i].standing is Resident),
        sound_taking(vs, entries, busy, evicting, got),
        forall|k: int| 0 <= k < got.len() ==> (#[trigger] got[k]) < i,
    ensures
        ({
            let j = unit_end(vs, i);
            let g = gather(vs, entries, busy, evicting, got, i, j);
            &&& i < j <= vs.len()
            &&& sound_taking(vs, entries, busy, evicting, g)
            &&& forall|k: int| 0 <= k < g.len() ==> (#[trigger] g[k]) < j
            &&& got.len() <= g.len()
            &&& g.take(got.len() as int) == got
            &&& forall|p: int, q: int|
                got.len() <= p < g.len() && got.len() <= q < g.len() ==> together(
                    vs[(#[trigger] g[p]) as int],
                    vs[(#[trigger] g[q]) as int],
                )
        }),
{
    run_end_is_ahead(vs, i, i + 1);
    run_is_one_group(vs, i, i + 1);
    let j = unit_end(vs, i);
    let g = gather(vs, entries, busy, evicting, got, i, j);
    gather_is_sound(vs, entries, busy, evicting, got, i, j);
    assert forall|p: int, q: int|
        got.len() <= p < g.len() && got.len() <= q < g.len() implies together(
        vs[(#[trigger] g[p]) as int],
        vs[(#[trigger] g[q]) as int],
    ) by {
        assert(i <= g[p] < j);
        assert(i <= g[q] < j);
    }
}

/// A taking stops in time: without its last unit it would not free enough.
proof fn taking_is_minimal(
    vs: Seq<Victim>,
    entries: Seq<IndexEntry>,
    busy: Set<Seq<char>>,
    evicting: bool,
    need: int,
    got: Seq<usize>,
    i: int,
) -> (p: int)
    requires
        0 <= i <= vs.len() <= usize::MAX,
        sound_taking(vs, entries, busy, evicting, got),
        forall|k: int| 0 <= k < got.len() ==> (#[trigger] got[k]) < i,
        freed(vs, entries, got) < need,
    ensures
        ({
            let t = take_from(vs, entries, busy, evicting, need, got, i);
            t.len() > got.len() ==> {
                &&& 0 <= p < t.len()
                &&& freed(vs, entries, t.take(p)) < need
                &&& forall|q: int|
                    p <= q < t.len() ==> together(vs[t[p] as int], vs[(#[trigger] t[q]) as int])
            }
        }),
    decreases vs.len() - i,
{
    if i >= vs.len() || (!evicting && vs[i].standing is Resident) {
        0
    } else {
        units_are_together(vs, entries, busy, evicting, got, i);
        let j = unit_end(vs, i);
        let g = gather(vs, entries, busy, evicting, got, i, j);
        let t = take_from(vs, entries, busy, evicting, need, g, j);
        assert(t == take_from(vs, entries, busy, evicting, need, got, i));
        if freed(vs, entries, g) >= need {
            assert(t == g);
            got.len() as int
        } else {
            let p = taking_is_minimal(vs, entries, busy, evicting, need, g, j);
            if t.len() > g.len() {
                p
            } else {
                takings_extend(vs, entries, busy, evicting, need, g, j);
                assert(t.take(g.len() as int) =~= t);
                let last = t.len() - 1;
                if t.len() > got.len() {
                    freed_grows(vs, entries, t, last);
                }
                last
            }
        }
    }
}

proof fn takings_extend(
    vs: Seq<Victim>,
    entries: Seq<IndexEntry>,
    busy: Set<Seq<char>>,
    evicting: bool,
    need: int,
    got: Seq<usize>,
    i: int,
)
    requires
        0 <= i <= vs.len() <= usize::MAX,
        sound_taking(vs, entries, busy, evicting, got),
        forall|k: int| 0 <= k < got.len() ==> (#[trigger] got[k]) < i,
    ensures
        ({
            let t = take_from(vs, entries, busy, evicting, need, got, i);
            got.len() <= t.len() && t.take(got.len() as int) == got
        }),
    decreases vs.len() - i,
{
    if i >= vs.len() || freed(vs, entries, got) >= need || (!evicting
        && vs[i].standing is Resident) {
        assert(got.take(got.len() as int) =~= got);
    } else {
        run_end_is_ahead(vs, i, i + 1);
        run_is_one_group(vs, i, i + 1);
        let j = unit_end(vs, i);
        let g = gather(vs, entries, busy, evicting, got, i, j);
        gather_is_sound(vs, entries, busy, evicting, got, i, j);
        takings_extend(vs, entries, busy, evicting, need, g, j);
        let t = take_from(vs, entries, busy, evicting, need, g, j);
        assert(t.take(got.len() as int) =~= got) by {
            assert forall|k: int| 0 <= k < got.len() implies t[k] == got[k] by {
                assert(t.take(g.len() as int)[k] == t[k]);
                assert(g.take(got.len() as int)[k] == g[k]);
            }
        }
    }
}

proof fn keys_go_by_turn(input: PassInput, x: usize, y: usize)
    requires
        !goes_before(victim_key(input, y), victim_key(input, x)),
    ensures
        victim_of(input, x).standing.turn() < victim_of(input, y).standing.turn() || (victim_of(
            input,
            x,
        ).standing == victim_of(input, y).standing && victim_of(input, x).group <= victim_of(
            input,
            y,
        ).group),
{
}

proof fn pair_goes_by_turn(input: PassInput, a: int, b: int)
    requires
        input.full(),
        0 <= a < b < victims(input).len(),
    ensures
        victims(input)[a].standing.turn() < victims(input)[b].standing.turn() || (victims(
            input,
        )[a].standing == victims(input)[b].standing && victims(input)[a].group <= victims(
            input,
        )[b].group),
{
    victims_are_the_evictable_entries(input);
    let v = victims(input)[a];
    let w = victims(input)[b];
    assert(v == victim_of(input, v.at) && w == victim_of(input, w.at));
    assert(!goes_before(victim_key(input, w.at), victim_key(input, v.at)));
    keys_go_by_turn(input, v.at, w.at);
}

/// The victims of a pass stand in the order of their turn and group: opportunistic bytes
/// first, then groups below the line, then those above it, each from the tail.
pub proof fn victims_go_by_turn(input: PassInput)
    requires
        input.full(),
    ensures
        by_turn(victims(input)),
{
    let vs = victims(input);
    assert forall|a: int, b: int| 0 <= a < b < vs.len() implies (#[trigger] vs[a]).standing.turn()
        < (#[trigger] vs[b]).standing.turn() || (vs[a].standing == vs[b].standing && vs[a].group
        <= vs[b].group) by {
        pair_goes_by_turn(input, a, b);
    }
}

/// The last evictions of a pass, as positions of the eviction order.
pub open spec fn last_taking(input: PassInput) -> Seq<usize> {
    let b = bulk_of(input);
    let floor = eviction_floor(
        input.max_bytes as int,
        input.configured_max as int,
        input.avail as int,
    );
    if input.full() && b.on_disk > floor {
        take_from(
            victims(input),
            input.entries@,
            busy_ids(b.fetches, b.reclaimed),
            true,
            b.on_disk - floor,
            Seq::empty(),
            0,
        )
    } else {
        Seq::empty()
    }
}

/// A full pass evicts down to its target, or evicts all there is: whatever could be evicted
/// and is not, the pass fetches or has reclaimed.
pub proof fn evictions_reach_their_target(input: PassInput, k: int)
    requires
        input.full(),
        0 <= k < victims(input).len(),
        bulk_of(input).on_disk - freed(victims(input), input.entries@, last_taking(input))
            > eviction_floor(
            input.max_bytes as int,
            input.configured_max as int,
            input.avail as int,
        ),
    ensures
        ({
            let id = input.entries@[victims(input)[k].at as int].id@;
            let b = bulk_of(input);
            busy_ids(b.fetches, b.reclaimed).contains(id) || among(
                victims(input),
                input.entries@,
                last_taking(input),
                id,
            )
        }),
{
    let vs = victims(input);
    let b = bulk_of(input);
    let busy = busy_ids(b.fetches, b.reclaimed);
    let floor = eviction_floor(
        input.max_bytes as int,
        input.configured_max as int,
        input.avail as int,
    );
    vs_fit(input);
    if b.on_disk > floor {
        let e = taking_extent(vs, input.entries@, busy, true, b.on_disk - floor, Seq::empty(), 0);
        assert(e == vs.len());
        let id = input.entries@[vs[k].at as int].id@;
        assert(busy.contains(id) || among(vs, input.entries@, last_taking(input), id));
    }
}

/// A full pass evicts no further than it must: without its last unit - one opportunistic
/// entry, or one whole group - it would not reach its target.
pub proof fn evictions_stop_in_time(input: PassInput) -> (p: int)
    requires
        last_taking(input).len() > 0,
    ensures
        0 <= p < last_taking(input).len(),
        bulk_of(input).on_disk - freed(
            victims(input),
            input.entries@,
            last_taking(input).take(p),
        ) > eviction_floor(
            input.max_bytes as int,
            input.configured_max as int,
            input.avail as int,
        ),
        forall|q: int|
            p <= q < last_taking(input).len() ==> together(
                victims(input)[last_taking(input)[p] as int],
                victims(input)[(#[trigger] last_taking(input)[q]) as int],
            ),
{
    let vs = victims(input);
    let b = bulk_of(input);
    let busy = busy_ids(b.fetches, b.reclaimed);
    let floor = eviction_floor(
        input.max_bytes as int,
        input.configured_max as int,
        input.avail as int,
    );
    vs_fit(input);
    taking_is_minimal(vs, input.entries@, busy, true, b.on_disk - floor, Seq::empty(), 0)
}

proof fn whole_groups(
    vs: Seq<Victim>,
    entries: Seq<IndexEntry>,
    busy: Set<Seq<char>>,
    evicting: bool,
    need: int,
    k: int,
    m: int,
)
    requires
        vs.len() <= usize::MAX,
        by_turn(vs),
        ({
            let t = take_from(vs, entries, busy, evicting, need, Seq::empty(), 0);
            0 <= k < t.len() && 0 <= m < vs.len() && together(vs[t[k] as int], vs[m])
        }),
    ensures
        ({
            let t = take_from(vs, entries, busy, evicting, need, Seq::empty(), 0);
            let id = entries[vs[m].at as int].id@;
            busy.contains(id) || among(vs, entries, t, id)
        }),
{
    let t = take_from(vs, entries, busy, evicting, need, Seq::empty(), 0);
    let e = taking_extent(vs, entries, busy, evicting, need, Seq::empty(), 0);
    let id = entries[vs[m].at as int].id@;
    let x = t[k] as int;
    assert(x < e);
    if vs[x].at == vs[m].at {
        assert(entries[vs[t[k] as int].at as int].id@ == id);
    } else if m < e {
        assert(busy.contains(id) || among(vs, entries, t, id));
    } else {
        // The group would be cut at `e`, and none is.
        if x < e - 1 {
            assert(vs[x].standing.turn() <= vs[e - 1].standing.turn());
        }
        if e < m {
            assert(vs[e].standing.turn() <= vs[m].standing.turn());
        }
        assert(false);
    }
}

/// Groups go whole: where a pass evicts one member of a group, each other member that could
/// be evicted goes too, unless the pass fetches it or it is gone already.
pub proof fn evictions_take_whole_groups(input: PassInput, k: int, m: int)
    requires
        0 <= k < last_taking(input).len(),
        0 <= m < victims(input).len(),
        together(victims(input)[last_taking(input)[k] as int], victims(input)[m]),
    ensures
        ({
            let id = input.entries@[victims(input)[m].at as int].id@;
            let b = bulk_of(input);
            busy_ids(b.fetches, b.reclaimed).contains(id) || among(
                victims(input),
                input.entries@,
                last_taking(input),
                id,
            )
        }),
{
    let b = bulk_of(input);
    let floor = eviction_floor(
        input.max_bytes as int,
        input.configured_max as int,
        input.avail as int,
    );
    vs_fit(input);
    victims_go_by_turn(input);
    whole_groups(
        victims(input),
        input.entries@,
        busy_ids(b.fetches, b.reclaimed),
        true,
        b.on_disk - floor,
        k,
        m,
    );
}

/// Room for a pin is made of whole groups too, and never of one above the line.
pub proof fn reclaims_take_whole_groups(input: PassInput, b: Bulk, want: int, k: int, m: int)
    requires
        input.full(),
        0 <= k < reclaim(input, b, want).len(),
        0 <= m < victims(input).len(),
        together(victims(input)[reclaim(input, b, want)[k] as int], victims(input)[m]),
    ensures
        ({
            let id = input.entries@[victims(input)[m].at as int].id@;
            busy_ids(b.fetches, b.reclaimed).contains(id) || among(
                victims(input),
                input.entries@,
                reclaim(input, b, want),
                id,
            )
        }),
        !(victims(input)[reclaim(input, b, want)[k] as int].standing is Resident),
{
    let vs = victims(input);
    let busy = busy_ids(b.fetches, b.reclaimed);
    vs_fit(input);
    victims_go_by_turn(input);
    crate::plan_laws::taking_is_sound(vs, input.entries@, busy, false, want, Seq::empty(), 0);
    whole_groups(vs, input.entries@, busy, false, want, k, m);
}

/// Evictions go in order: nothing is passed over. Whatever stands before an evicted entry in the
/// eviction order is evicted too, unless the pass fetches it or it is gone already.
pub proof fn evictions_pass_over_nothing(input: PassInput, k: int, m: int)
    requires
        0 <= k < last_taking(input).len(),
        0 <= m < last_taking(input)[k],
    ensures
        last_taking(input)[k] < victims(input).len(),
        evictions(input).len() == last_taking(input).len(),
        evictions(input)[k] == input.entries@[victims(input)[last_taking(input)[k] as int].at as int].id,
        ({
            let id = input.entries@[victims(input)[m].at as int].id@;
            let b = bulk_of(input);
            busy_ids(b.fetches, b.reclaimed).contains(id) || exists|j: int|
                0 <= j < evictions(input).len() && (#[trigger] evictions(input)[j])@ == id
        }),
{
    let vs = victims(input);
    let b = bulk_of(input);
    let busy = busy_ids(b.fetches, b.reclaimed);
    let floor = eviction_floor(
        input.max_bytes as int,
        input.configured_max as int,
        input.avail as int,
    );
    vs_fit(input);
    let e = taking_extent(vs, input.entries@, busy, true, b.on_disk - floor, Seq::empty(), 0);
    let id = input.entries@[vs[m].at as int].id@;
    assert(busy.contains(id) || among(vs, input.entries@, last_taking(input), id));
    if !busy.contains(id) {
        let j = choose|j: int|
            0 <= j < last_taking(input).len() && input.entries@[vs[(#[trigger] last_taking(
                input,
            )[j]) as int].at as int].id@ == id;
        assert(evictions(input)[j]@ == id);
    }
}

/// Of two entries kept on the chance alone, where the one played later is evicted, so is the one
/// played earlier, unless the pass fetches it or it is gone already.
pub proof fn no_later_play_goes_before_an_earlier(input: PassInput, k: int, m: int)
    requires
        0 <= k < last_taking(input).len(),
        0 <= m < victims(input).len(),
        victims(input)[m].standing is Opportunistic,
        victims(input)[last_taking(input)[k] as int].standing is Opportunistic,
        input.entries@[victims(input)[m].at as int].last_played_unix
            < input.entries@[victims(input)[last_taking(input)[k] as int].at as int].last_played_unix,
    ensures
        ({
            let id = input.entries@[victims(input)[m].at as int].id@;
            let b = bulk_of(input);
            busy_ids(b.fetches, b.reclaimed).contains(id) || exists|j: int|
                0 <= j < evictions(input).len() && (#[trigger] evictions(input)[j])@ == id
        }),
{
    let p = last_taking(input)[k] as int;
    let vs = victims(input);
    let b = bulk_of(input);
    let floor = eviction_floor(
        input.max_bytes as int,
        input.configured_max as int,
        input.avail as int,
    );
    vs_fit(input);
    let e = taking_extent(
        vs,
        input.entries@,
        busy_ids(b.fetches, b.reclaimed),
        true,
        b.on_disk - floor,
        Seq::empty(),
        0,
    );
    assert(p < e <= vs.len());
    if p < m {
        the_longest_unplayed_goes_first(input, p, m);
    }
    evictions_pass_over_nothing(input, k, m);
}

/// Room for a pin is made no larger than it must be: without the last unit that is reclaimed it
/// would not do.
pub proof fn reclaims_stop_in_time(input: PassInput, b: Bulk, want: int) -> (p: int)
    requires
        input.full(),
        want > 0,
        reclaim(input, b, want).len() > 0,
    ensures
        0 <= p < reclaim(input, b, want).len(),
        freed(victims(input), input.entries@, reclaim(input, b, want).take(p)) < want,
        forall|q: int|
            p <= q < reclaim(input, b, want).len() ==> together(
                victims(input)[reclaim(input, b, want)[p] as int],
                victims(input)[(#[trigger] reclaim(input, b, want)[q]) as int],
            ),
{
    let vs = victims(input);
    vs_fit(input);
    assert(freed(vs, input.entries@, Seq::empty()) == 0);
    taking_is_minimal(
        vs,
        input.entries@,
        busy_ids(b.fetches, b.reclaimed),
        false,
        want,
        Seq::empty(),
        0,
    )
}

/// Room for a pin is made wherever it can be: where what is reclaimed does not do, every victim
/// that stands below the line is reclaimed, unless the pass fetches it or it is gone already.
pub proof fn reclaims_try_everything(input: PassInput, b: Bulk, want: int, k: int)
    requires
        input.full(),
        0 <= k < victims(input).len(),
        !(victims(input)[k].standing is Resident),
        freed(victims(input), input.entries@, reclaim(input, b, want)) < want,
    ensures
        ({
            let id = input.entries@[victims(input)[k].at as int].id@;
            busy_ids(b.fetches, b.reclaimed).contains(id) || among(
                victims(input),
                input.entries@,
                reclaim(input, b, want),
                id,
            )
        }),
{
    let vs = victims(input);
    vs_fit(input);
    victims_go_by_turn(input);
    let e = taking_extent(
        vs,
        input.entries@,
        busy_ids(b.fetches, b.reclaimed),
        false,
        want,
        Seq::empty(),
        0,
    );
    if e < vs.len() && e <= k {
        assert(vs[e].standing is Resident);
        if e < k {
            assert(vs[e].standing.turn() <= vs[k].standing.turn());
        }
    }
}

/// Room for a pin is made in the order of eviction: whatever stands before a reclaimed entry is
/// reclaimed too, unless the pass fetches it or it is gone already.
pub proof fn reclaims_pass_over_nothing(input: PassInput, b: Bulk, want: int, k: int, m: int)
    requires
        input.full(),
        0 <= k < reclaim(input, b, want).len(),
        0 <= m < reclaim(input, b, want)[k],
    ensures
        reclaim(input, b, want)[k] < victims(input).len(),
        ({
            let id = input.entries@[victims(input)[m].at as int].id@;
            busy_ids(b.fetches, b.reclaimed).contains(id) || among(
                victims(input),
                input.entries@,
                reclaim(input, b, want),
                id,
            )
        }),
{
    let vs = victims(input);
    vs_fit(input);
    let e = taking_extent(
        vs,
        input.entries@,
        busy_ids(b.fetches, b.reclaimed),
        false,
        want,
        Seq::empty(),
        0,
    );
}

/// Nothing is spared but what is fetched or gone: an id is busy exactly where the pass fetches it
/// or has reclaimed it.
pub proof fn only_the_fetched_and_the_gone_are_busy(
    fetches: Seq<Fetch>,
    gone: Seq<SongId>,
    id: Seq<char>,
)
    ensures
        busy_ids(fetches, gone).contains(id) <==> (exists|k: int|
            0 <= k < fetches.len() && (#[trigger] fetches[k]).id@ == id) || (exists|k: int|
            0 <= k < gone.len() && (#[trigger] gone[k])@ == id),
{
}

/// A group above the line that does not fit into the room that is left gets room made for it, or
/// nothing happens: where what can be reclaimed makes its outstanding tracks fit, beside what
/// is set aside already and into the budget, exactly that is reclaimed and all of them are asked
/// for; where not, nothing is reclaimed and nothing asked for.
pub proof fn room_is_made_or_nothing_happens(input: PassInput, b: Bulk, slot: int)
    requires
        input.full(),
        b.fetches.len() < input.download_batch,
        input.line().walk.resident[slot],
        due(input, slot).len() > 0,
        0 <= b.headroom < capped(
            weight(input.line().groups[slot].songs@, input.line().sizes, due(input, slot)),
        ),
    ensures
        ({
            let songs = input.line().groups[slot].songs@;
            let cost = capped(weight(songs, input.line().sizes, due(input, slot)));
            let got = reclaim(input, b, cost - b.headroom);
            let bytes = freed(victims(input), input.entries@, got);
            let after = backfill_step(input, b, slot);
            let fits = b.headroom + bytes >= cost && input.max_bytes - (b.on_disk - bytes) >= cost;
            bytes <= b.on_disk && b.on_disk <= u64::MAX && b.headroom + bytes <= u64::MAX ==> {
                &&& !fits ==> after == b
                &&& fits ==> {
                    &&& after.reclaimed == b.reclaimed + ids_of(
                        victims(input),
                        input.entries@,
                        got,
                    )
                    &&& after.on_disk == b.on_disk - bytes
                    &&& after.fetches == enlist_all(
                        b.fetches,
                        input.download_batch as int,
                        songs,
                        due(input, slot),
                        due(input, slot).len() as int,
                    )
                    &&& after.fetches.len() > b.fetches.len() ==> after.committed == b.committed
                        + cost && (after.headroom == b.headroom + bytes - cost || after.headroom
                        == input.max_bytes - (b.on_disk - bytes) - cost) && after.headroom
                        <= b.headroom + bytes - cost && after.headroom <= input.max_bytes - (
                    b.on_disk - bytes) - cost
                }
            }
        }),
{
    let songs = input.line().groups[slot].songs@;
    let cost = capped(weight(songs, input.line().sizes, due(input, slot)));
    freed_grows(
        victims(input),
        input.entries@,
        reclaim(input, b, cost - b.headroom),
        0,
    );
    assert(reclaim(input, b, cost - b.headroom).take(0) =~= Seq::empty());
}

} // verus!
