//! What holds of every plan.
use crate::budget::{capped, eviction_floor};
use crate::entries::{cached, cached_means_listed, distinct_entries, DeleteReason, IndexEntry};
use crate::frontier::claim_slot;
use crate::model::{Song, SongId};
use crate::names::storable;
use crate::plan::{
    after_backfill, after_stale, among, as_downloads, as_evictions, backfill_step, bulk_of,
    busy_ids, candidates, demotions, due, enlist, enlist_all, evictable, evictions, fetching,
    flushes, freed, gather, goes_before, housekeeping, ids_of, is_protected, judged, marks,
    marks_at, not_due, plan_of, reclaim, room_after, run_end, run_end_is_ahead, suspect_fetches,
    take_from, unit_end, victim_key, victim_of, victim_order, victims, wants_replacement,
    window_fetches, Bulk, DownloadReason, Fetch, PassInput, PassMode, StoreAction, Victim,
};
use crate::score::{picks_are_picked, weight};
use crate::sorting::sorting_keeps_elements;
use vstd::prelude::*;

verus! {

/// The phase of a pass an action belongs to.
pub open spec fn phase(a: StoreAction) -> int {
    match a {
        StoreAction::SweepTmp(_) => 0,
        StoreAction::DeleteFile(_) => 1,
        StoreAction::DeleteEntry { .. } => 2,
        StoreAction::SetStale { .. } => 3,
        StoreAction::SetPinned { .. } => 3,
        StoreAction::Evict(_) => 4,
        StoreAction::Download { .. } => 5,
        StoreAction::FlushRecency { .. } => 6,
    }
}

proof fn marks_at_are_marks(songs: Seq<Song>, entries: Seq<IndexEntry>, at: Seq<usize>)
    ensures
        forall|i: int|
            0 <= i < marks_at(songs, entries, at).len() ==> phase(
                #[trigger] marks_at(songs, entries, at)[i],
            ) == 3,
    decreases at.len(),
{
    if at.len() > 0 {
        let p = marks_at(songs, entries, at.drop_last());
        let q = marks_at(songs, entries, at);
        marks_at_are_marks(songs, entries, at.drop_last());
        assert forall|i: int| 0 <= i < q.len() implies phase(#[trigger] q[i]) == 3 by {
            if i < p.len() {
                assert(q[i] == p[i]);
            }
        }
    }
}

proof fn demotions_are_marks(input: PassInput, n: int)
    ensures
        forall|i: int| 0 <= i < demotions(input, n).len() ==> phase(#[trigger] demotions(input, n)[i]) == 3,
    decreases n,
{
    if n > 0 {
        let p = demotions(input, n - 1);
        let q = demotions(input, n);
        demotions_are_marks(input, n - 1);
        assert forall|i: int| 0 <= i < q.len() implies phase(#[trigger] q[i]) == 3 by {
            if i < p.len() {
                assert(q[i] == p[i]);
            }
        }
    }
}

proof fn flushes_are_flushes(input: PassInput, n: int)
    ensures
        forall|i: int| 0 <= i < flushes(input, n).len() ==> phase(#[trigger] flushes(input, n)[i]) == 6,
    decreases n,
{
    if n > 0 {
        let p = flushes(input, n - 1);
        let q = flushes(input, n);
        flushes_are_flushes(input, n - 1);
        assert forall|i: int| 0 <= i < q.len() implies phase(#[trigger] q[i]) == 6 by {
            if i < p.len() {
                assert(q[i] == p[i]);
            }
        }
    }
}

proof fn marks_are_marks(input: PassInput)
    ensures
        forall|i: int| 0 <= i < marks(input).len() ==> phase(#[trigger] marks(input)[i]) == 3,
{
    if input.judging() {
        marks_at_are_marks(input.pinned_songs(), input.entries@, judged(input.pinned_songs()));
        demotions_are_marks(input, input.entries@.len() as int);
    }
}

/// The parts of a plan, and where each action of it comes from.
proof fn plan_parts(input: PassInput)
    ensures
        forall|i: int|
            0 <= i < plan_of(input).len() ==> ({
                let a = #[trigger] plan_of(input)[i];
                let b = bulk_of(input);
                &&& a is Download ==> exists|k: int|
                    0 <= k < b.fetches.len() && a == (StoreAction::Download {
                        id: (#[trigger] b.fetches[k]).id,
                        reason: b.fetches[k].reason,
                    })
                &&& a is Evict ==> (exists|k: int|
                    0 <= k < b.reclaimed.len() && a == StoreAction::Evict(#[trigger] b.reclaimed[k]))
                    || (exists|k: int|
                    0 <= k < evictions(input).len() && a == StoreAction::Evict(
                        #[trigger] evictions(input)[k],
                    ))
                &&& phase(a) == 3 ==> input.judging()
                &&& phase(a) != 5 ==> input.full()
            }),
        forall|i: int, j: int|
            0 <= i < j < plan_of(input).len() && !(plan_of(input)[i] is Evict) && !(plan_of(
                input,
            )[j] is Evict) ==> phase(#[trigger] plan_of(input)[i]) <= phase(
                #[trigger] plan_of(input)[j],
            ),
        forall|i: int, j: int|
            0 <= i < j < plan_of(input).len() && plan_of(input)[i] is Evict ==> phase(
                #[trigger] plan_of(input)[j],
            ) >= 4 && phase(#[trigger] plan_of(input)[i]) == 4,
{
    let b = bulk_of(input);
    let h = housekeeping(input);
    let m = marks(input);
    let r = as_evictions(b.reclaimed);
    let d = as_downloads(b.fetches);
    let f = if input.full() {
        flushes(input, input.entries@.len() as int)
    } else {
        Seq::empty()
    };
    let e = as_evictions(evictions(input));
    marks_are_marks(input);
    flushes_are_flushes(input, input.entries@.len() as int);
    let plan = plan_of(input);
    let n1 = h.len() as int;
    let n2 = n1 + m.len();
    let n3 = n2 + r.len();
    let n4 = n3 + d.len();
    let n5 = n4 + f.len();
    assert(plan == h + m + r + d + f + e);
    assert forall|i: int| 0 <= i < plan.len() implies #[trigger] plan[i] == (if i < n1 {
        h[i]
    } else if i < n2 {
        m[i - n1]
    } else if i < n3 {
        r[i - n2]
    } else if i < n4 {
        d[i - n3]
    } else if i < n5 {
        f[i - n4]
    } else {
        e[i - n5]
    }) by {}
    assert forall|i: int| 0 <= i < h.len() implies phase(#[trigger] h[i]) <= 2 by {}
    assert forall|i: int, j: int| 0 <= i < j < h.len() implies phase(#[trigger] h[i]) <= phase(
        #[trigger] h[j],
    ) by {}
    if !input.full() {
        nothing_reclaimed_on_a_light_pass(input);
    }
    assert forall|i: int| 0 <= i < plan.len() implies ({
        let a = #[trigger] plan[i];
        &&& a is Download ==> exists|k: int|
            0 <= k < b.fetches.len() && a == (StoreAction::Download {
                id: (#[trigger] b.fetches[k]).id,
                reason: b.fetches[k].reason,
            })
        &&& a is Evict ==> (exists|k: int|
            0 <= k < b.reclaimed.len() && a == StoreAction::Evict(#[trigger] b.reclaimed[k])) || (
        exists|k: int|
            0 <= k < evictions(input).len() && a == StoreAction::Evict(
                #[trigger] evictions(input)[k],
            ))
        &&& phase(a) == 3 ==> input.judging()
        &&& phase(a) != 5 ==> input.full()
    }) by {
        let a = plan[i];
        if n3 <= i < n4 {
            let k = i - n3;
            assert(a == StoreAction::Download { id: b.fetches[k].id, reason: b.fetches[k].reason });
        } else if n2 <= i < n3 {
            assert(a == StoreAction::Evict(b.reclaimed[i - n2]));
        } else if n5 <= i {
            assert(a == StoreAction::Evict(evictions(input)[i - n5]));
        } else if i < n1 {
            assert(phase(h[i]) <= 2);
        } else if i < n2 {
            assert(phase(m[i - n1]) == 3);
        } else {
            assert(phase(f[i - n4]) == 6);
        }
    }
    assert forall|i: int, j: int|
        0 <= i < j < plan.len() && !(plan[i] is Evict) && !(plan[j] is Evict) implies phase(
        #[trigger] plan[i],
    ) <= phase(#[trigger] plan[j]) by {
        part_phase(h, m, r, d, f, e, i);
        part_phase(h, m, r, d, f, e, j);
    }
    assert forall|i: int, j: int| 0 <= i < j < plan.len() && plan[i] is Evict implies phase(
        #[trigger] plan[j],
    ) >= 4 && phase(#[trigger] plan[i]) == 4 by {
        part_phase(h, m, r, d, f, e, i);
        part_phase(h, m, r, d, f, e, j);
    }
}

/// Which phase the action at a place of a plan made of these parts belongs to.
proof fn part_phase(
    h: Seq<StoreAction>,
    m: Seq<StoreAction>,
    r: Seq<StoreAction>,
    d: Seq<StoreAction>,
    f: Seq<StoreAction>,
    e: Seq<StoreAction>,
    i: int,
)
    requires
        0 <= i < (h + m + r + d + f + e).len(),
        forall|k: int| 0 <= k < h.len() ==> phase(#[trigger] h[k]) <= 2,
        forall|k: int| 0 <= k < m.len() ==> phase(#[trigger] m[k]) == 3,
        forall|k: int| 0 <= k < r.len() ==> phase(#[trigger] r[k]) == 4,
        forall|k: int| 0 <= k < d.len() ==> phase(#[trigger] d[k]) == 5,
        forall|k: int| 0 <= k < f.len() ==> phase(#[trigger] f[k]) == 6,
        forall|k: int| 0 <= k < e.len() ==> phase(#[trigger] e[k]) == 4,
    ensures
        ({
            let a = (h + m + r + d + f + e)[i];
            let n1 = h.len();
            let n2 = n1 + m.len();
            let n3 = n2 + r.len();
            let n4 = n3 + d.len();
            let n5 = n4 + f.len();
            &&& i < n1 ==> a == h[i] && phase(a) <= 2
            &&& n1 <= i < n2 ==> phase(a) == 3
            &&& n2 <= i < n3 ==> phase(a) == 4
            &&& n3 <= i < n4 ==> phase(a) == 5
            &&& n4 <= i < n5 ==> phase(a) == 6
            &&& n5 <= i ==> phase(a) == 4
        }),
{
    let n1 = h.len() as int;
    let n2 = n1 + m.len();
    let n3 = n2 + r.len();
    let n4 = n3 + d.len();
    let n5 = n4 + f.len();
    let p = h + m + r + d + f + e;
    if i < n1 {
        assert(p[i] == h[i]);
    } else if i < n2 {
        assert(p[i] == m[i - n1]);
    } else if i < n3 {
        assert(p[i] == r[i - n2]);
    } else if i < n4 {
        assert(p[i] == d[i - n3]);
    } else if i < n5 {
        assert(p[i] == f[i - n4]);
    } else {
        assert(p[i] == e[i - n5]);
    }
}

/// The marks of a pass stand together in its plan, after the housekeeping, and nowhere else.
pub proof fn marks_stand_together(input: PassInput)
    ensures
        ({
            let n = housekeeping(input).len();
            &&& n + marks(input).len() <= plan_of(input).len()
            &&& forall|k: int|
                0 <= k < marks(input).len() ==> plan_of(input)[n + k] == #[trigger] marks(input)[k]
            &&& forall|i: int|
                0 <= i < plan_of(input).len() && phase(#[trigger] plan_of(input)[i]) == 3 ==> n <= i
                    < n + marks(input).len() && plan_of(input)[i] == marks(input)[i - n]
        }),
{
    let b = bulk_of(input);
    let h = housekeeping(input);
    let m = marks(input);
    let r = as_evictions(b.reclaimed);
    let d = as_downloads(b.fetches);
    let f = if input.full() {
        flushes(input, input.entries@.len() as int)
    } else {
        Seq::empty()
    };
    let e = as_evictions(evictions(input));
    marks_are_marks(input);
    flushes_are_flushes(input, input.entries@.len() as int);
    let plan = plan_of(input);
    let n = h.len() as int;
    assert(plan == h + m + r + d + f + e);
    assert forall|k: int| 0 <= k < m.len() implies plan[n + k] == #[trigger] m[k] by {}
    assert forall|i: int| 0 <= i < plan.len() && phase(#[trigger] plan[i]) == 3 implies n <= i < n
        + m.len() && plan[i] == m[i - n] by {
        part_phase(h, m, r, d, f, e, i);
    }
}

proof fn nothing_reclaimed_on_a_light_pass(input: PassInput)
    requires
        !input.full(),
    ensures
        bulk_of(input).reclaimed.len() == 0,
        evictions(input).len() == 0,
{
}

/// The order of a plan: housekeeping, then marks, then downloads, then recency. Evictions
/// come after all housekeeping and marks: those that make room for a pin right before the
/// downloads, all others last.
pub proof fn plans_keep_their_order(input: PassInput, i: int, j: int)
    requires
        0 <= i < j < plan_of(input).len(),
    ensures
        !(plan_of(input)[i] is Evict) && !(plan_of(input)[j] is Evict) ==> phase(plan_of(input)[i])
            <= phase(plan_of(input)[j]),
        plan_of(input)[i] is Evict ==> phase(plan_of(input)[j]) >= 4,
{
    plan_parts(input);
    let a = plan_of(input)[i];
    let b = plan_of(input)[j];
    assert(phase(a) == phase(a) && phase(b) == phase(b));
}

/// Marks are made only by a full pass with a pin set. Without one every claim is kept.
pub proof fn only_judging_passes_mark(input: PassInput, i: int)
    requires
        0 <= i < plan_of(input).len(),
        !input.judging(),
    ensures
        !(plan_of(input)[i] is SetStale),
        !(plan_of(input)[i] is SetPinned),
{
    plan_parts(input);
    let a = plan_of(input)[i];
    assert(phase(a) == phase(a));
}

// What is fetched.

/// Fetches stay within the batch, are storable, and name no id twice.
pub open spec fn sound_fetches(f: Seq<Fetch>, batch: int) -> bool {
    &&& f.len() <= batch
    &&& forall|k: int| 0 <= k < f.len() ==> storable((#[trigger] f[k]).id@)
    &&& forall|a: int, b: int|
        0 <= a < b < f.len() ==> (#[trigger] f[a]).id@ != (#[trigger] f[b]).id@
}

proof fn enlist_keeps_sound(f: Seq<Fetch>, batch: int, id: SongId, reason: DownloadReason)
    requires
        sound_fetches(f, batch),
    ensures
        sound_fetches(enlist(f, batch, id, reason), batch),
        f.len() <= enlist(f, batch, id, reason).len(),
        forall|k: int| 0 <= k < f.len() ==> #[trigger] enlist(f, batch, id, reason)[k] == f[k],
        forall|k: int|
            f.len() <= k < enlist(f, batch, id, reason).len() ==> (#[trigger] enlist(
                f,
                batch,
                id,
                reason,
            )[k]).id == id && enlist(f, batch, id, reason)[k].reason == reason,
{
}

proof fn enlist_all_keeps_sound(
    f: Seq<Fetch>,
    batch: int,
    songs: Seq<Song>,
    at: Seq<usize>,
    n: int,
)
    requires
        sound_fetches(f, batch),
        0 <= n <= at.len(),
    ensures
        sound_fetches(enlist_all(f, batch, songs, at, n), batch),
        f.len() <= enlist_all(f, batch, songs, at, n).len(),
        forall|k: int| 0 <= k < f.len() ==> #[trigger] enlist_all(f, batch, songs, at, n)[k] == f[k],
        forall|k: int|
            f.len() <= k < enlist_all(f, batch, songs, at, n).len() ==> ({
                let x = #[trigger] enlist_all(f, batch, songs, at, n)[k];
                x.reason == DownloadReason::Backfill && exists|j: int|
                    0 <= j < n && x.id == songs[(#[trigger] at[j]) as int].id
            }),
    decreases n,
{
    if n > 0 {
        enlist_all_keeps_sound(f, batch, songs, at, n - 1);
        let p = enlist_all(f, batch, songs, at, n - 1);
        let id = songs[at[n - 1] as int].id;
        enlist_keeps_sound(p, batch, id, DownloadReason::Backfill);
        let q = enlist_all(f, batch, songs, at, n);
        assert forall|k: int| f.len() <= k < q.len() implies ({
            let x = #[trigger] q[k];
            x.reason == DownloadReason::Backfill && exists|j: int|
                0 <= j < n && x.id == songs[(#[trigger] at[j]) as int].id
        }) by {
            if k < p.len() {
                assert(q[k] == p[k]);
                let j = choose|j: int|
                    0 <= j < n - 1 && p[k].id == songs[(#[trigger] at[j]) as int].id;
                assert(q[k].id == songs[at[j] as int].id);
            } else {
                assert(q[k].id == songs[at[n - 1] as int].id);
            }
        }
    }
}

/// The audible downloads: each replaces a suspect, or fills a gap of the window.
pub open spec fn audible(input: PassInput, x: Fetch) -> bool {
    ||| x.reason == DownloadReason::Suspect && exists|i: int|
        0 <= i < input.entries@.len() && (#[trigger] input.entries@[i]).suspect
            && input.entries@[i].id == x.id
    ||| x.reason == DownloadReason::Window && !cached(input.entries@, x.id@) && exists|i: int|
        0 <= i < input.window@.len() && #[trigger] input.window@[i] == x.id
}

proof fn audible_suspects(input: PassInput, n: int)
    requires
        0 <= n <= input.entries@.len(),
    ensures
        sound_fetches(suspect_fetches(input, n), input.download_batch as int),
        forall|k: int|
            0 <= k < suspect_fetches(input, n).len() ==> audible(
                input,
                #[trigger] suspect_fetches(input, n)[k],
            ),
    decreases n,
{
    if n > 0 {
        audible_suspects(input, n - 1);
        let p = suspect_fetches(input, n - 1);
        let e = input.entries@[n - 1];
        enlist_keeps_sound(p, input.download_batch as int, e.id, DownloadReason::Suspect);
        let q = suspect_fetches(input, n);
        assert forall|k: int| 0 <= k < q.len() implies audible(input, #[trigger] q[k]) by {
            if k < p.len() {
                assert(q[k] == p[k]);
            } else {
                assert(input.entries@[n - 1].suspect && input.entries@[n - 1].id == q[k].id);
            }
        }
    }
}

/// What a window fetches is sound, and every bit of it is about to be heard.
pub proof fn audible_windows(input: PassInput, n: int)
    requires
        0 <= n <= input.window@.len(),
    ensures
        sound_fetches(window_fetches(input, n), input.download_batch as int),
        forall|k: int|
            0 <= k < window_fetches(input, n).len() ==> audible(
                input,
                #[trigger] window_fetches(input, n)[k],
            ),
    decreases n,
{
    if n > 0 {
        audible_windows(input, n - 1);
        let p = window_fetches(input, n - 1);
        let id = input.window@[n - 1];
        enlist_keeps_sound(p, input.download_batch as int, id, DownloadReason::Window);
        let q = window_fetches(input, n);
        assert forall|k: int| 0 <= k < q.len() implies audible(input, #[trigger] q[k]) by {
            if k < p.len() {
                assert(q[k] == p[k]);
            } else {
                assert(input.window@[n - 1] == q[k].id);
            }
        }
    } else {
        audible_suspects(input, input.entries@.len() as int);
    }
}

/// A bulk download: the replacement of a stale entry, or a track that a group above the line
/// holds and that is not on disk.
pub open spec fn bulky(input: PassInput, x: Fetch) -> bool {
    ||| x.reason == DownloadReason::Stale && exists|i: int|
        0 <= i < input.entries@.len() && wants_replacement(input, #[trigger] input.entries@[i])
            && input.entries@[i].id == x.id
    ||| x.reason == DownloadReason::Backfill && input.judging() && !cached(input.entries@, x.id@)
        && claim_slot(input.line().walk.claims, x.id@) is Some
}

// Victims.

proof fn candidates_are_evictable(input: PassInput, n: int)
    requires
        0 <= n <= input.entries@.len(),
    ensures
        forall|k: int|
            0 <= k < candidates(input, n).len() ==> (#[trigger] candidates(input, n)[k]) < n
                && evictable(input, input.entries@[candidates(input, n)[k] as int]),
        forall|a: int, b: int|
            0 <= a < b < candidates(input, n).len() ==> (#[trigger] candidates(input, n)[a])
                < (#[trigger] candidates(input, n)[b]),
        forall|i: int|
            0 <= i < n && evictable(input, #[trigger] input.entries@[i]) ==> candidates(
                input,
                n,
            ).contains(i as usize),
    decreases n,
{
    assert(input.entries@.len() == input.entries.len());
    if n > 0 {
        candidates_are_evictable(input, n - 1);
        let p = candidates(input, n - 1);
        let q = candidates(input, n);
        assert forall|i: int| 0 <= i < n && evictable(input, #[trigger] input.entries@[i]) implies q.contains(
            i as usize,
        ) by {
            if i == n - 1 {
                assert(q[p.len() as int] == i as usize);
            } else {
                assert(p.contains(i as usize));
                let k = choose|k: int| 0 <= k < p.len() && p[k] == i as usize;
                assert(q[k] == i as usize);
            }
        }
    }
}

/// What holds of the victims of a pass: each is an evictable entry, none occurs twice, no
/// evictable entry is left out, and they stand in eviction order.
pub proof fn victims_are_the_evictable_entries(input: PassInput)
    requires
        input.full(),
    ensures
        forall|k: int|
            0 <= k < victims(input).len() ==> (#[trigger] victims(input)[k]).at
                < input.entries@.len() && evictable(
                input,
                input.entries@[victims(input)[k].at as int],
            ) && victims(input)[k] == victim_of(input, victims(input)[k].at),
        forall|a: int, b: int|
            0 <= a < b < victims(input).len() ==> (#[trigger] victims(input)[a]).at != (
            #[trigger] victims(input)[b]).at && !goes_before(
                victim_key(input, victims(input)[b].at),
                victim_key(input, victims(input)[a].at),
            ),
        forall|i: int|
            0 <= i < input.entries@.len() && evictable(input, #[trigger] input.entries@[i])
                ==> exists|k: int|
                0 <= k < victims(input).len() && (#[trigger] victims(input)[k]).at == i,
{
    let n = input.entries@.len() as int;
    let c = candidates(input, n);
    let leq = victim_order(input);
    let order = c.sort_by(leq);
    let vs = victims(input);
    assert(input.entries@.len() == input.entries.len());
    candidates_are_evictable(input, n);
    crate::planner::victim_order_is_total(input);
    sorting_keeps_elements(c, leq);
    assert(c.no_duplicates());
    assert forall|k: int| 0 <= k < vs.len() implies (#[trigger] vs[k]).at < n && evictable(
        input,
        input.entries@[vs[k].at as int],
    ) && vs[k] == victim_of(input, vs[k].at) by {
        assert(order.contains(order[k]));
        assert(c.contains(order[k]));
    }
    assert forall|a: int, b: int| 0 <= a < b < vs.len() implies (#[trigger] vs[a]).at != (
    #[trigger] vs[b]).at && !goes_before(
        victim_key(input, vs[b].at),
        victim_key(input, vs[a].at),
    ) by {
        assert(vs[a].at == order[a] && vs[b].at == order[b]);
        assert(order[a] != order[b]);
        assert(leq(order[a], order[b]));
    }
    assert forall|i: int| 0 <= i < n && evictable(input, #[trigger] input.entries@[i]) implies exists|
        k: int,
    | 0 <= k < vs.len() && (#[trigger] vs[k]).at == i by {
        assert(c.contains(i as usize));
        assert(order.contains(i as usize));
        let k = choose|k: int| 0 <= k < order.len() && order[k] == i as usize;
        assert(vs[k].at == i);
    }
}

/// Each victim is an evictable entry, and none occurs twice.
proof fn victims_are_evictable(input: PassInput)
    requires
        input.full(),
    ensures
        victims(input).len() <= usize::MAX,
        forall|k: int|
            0 <= k < victims(input).len() ==> (#[trigger] victims(input)[k]).at
                < input.entries@.len() && evictable(
                input,
                input.entries@[victims(input)[k].at as int],
            ),
        forall|a: int, b: int|
            0 <= a < b < victims(input).len() ==> (#[trigger] victims(input)[a]).at != (
            #[trigger] victims(input)[b]).at,
{
    victims_are_the_evictable_entries(input);
    vs_fit(input);
}

/// A sound taking: victims that are not busy, in eviction order, and none above the line
/// unless evicting.
pub open spec fn sound_taking(
    vs: Seq<Victim>,
    entries: Seq<IndexEntry>,
    busy: Set<Seq<char>>,
    evicting: bool,
    got: Seq<usize>,
) -> bool {
    &&& forall|k: int|
        0 <= k < got.len() ==> (#[trigger] got[k]) < vs.len() && !busy.contains(
            entries[vs[got[k] as int].at as int].id@,
        ) && (evicting || !(vs[got[k] as int].standing is Resident))
    &&& forall|a: int, b: int| 0 <= a < b < got.len() ==> (#[trigger] got[a]) < (#[trigger] got[b])
}

/// Gathering a run of victims keeps a taking sound: what was taken stays in front, what
/// joins it comes out of the run, and nothing of the run is passed over but what is busy or taken
/// already.
pub proof fn gather_is_sound(
    vs: Seq<Victim>,
    entries: Seq<IndexEntry>,
    busy: Set<Seq<char>>,
    evicting: bool,
    got: Seq<usize>,
    i: int,
    j: int,
)
    requires
        0 <= i <= j <= vs.len(),
        vs.len() <= usize::MAX,
        sound_taking(vs, entries, busy, evicting, got),
        forall|k: int| 0 <= k < got.len() ==> (#[trigger] got[k]) < i,
        forall|k: int|
            i <= k < j ==> evicting || !((#[trigger] vs[k]).standing is Resident),
    ensures
        ({
            let g = gather(vs, entries, busy, evicting, got, i, j);
            &&& sound_taking(vs, entries, busy, evicting, g)
            &&& forall|k: int| 0 <= k < g.len() ==> (#[trigger] g[k]) < j
            &&& got.len() <= g.len()
            &&& g.take(got.len() as int) == got
            &&& forall|k: int| got.len() <= k < g.len() ==> i <= (#[trigger] g[k])
            &&& forall|k: int|
                i <= k < j ==> busy.contains(entries[(#[trigger] vs[k]).at as int].id@) || (evicting
                    && among(vs, entries, g, entries[vs[k].at as int].id@)) || g.contains(k as usize)
        }),
    decreases j - i,
{
    if i < j {
        gather_is_sound(vs, entries, busy, evicting, got, i, j - 1);
        let p = gather(vs, entries, busy, evicting, got, i, j - 1);
        let g = gather(vs, entries, busy, evicting, got, i, j);
        assert(g.take(got.len() as int) =~= got) by {
            assert(p.take(got.len() as int) == got);
            assert forall|k: int| 0 <= k < got.len() implies g[k] == got[k] by {
                assert(p.take(got.len() as int)[k] == p[k]);
                assert(g[k] == p[k]);
            }
        }
        assert forall|k: int| 0 <= k < p.len() implies #[trigger] g[k] == p[k] by {}
        assert forall|k: int| i <= k < j implies busy.contains(
            entries[(#[trigger] vs[k]).at as int].id@,
        ) || (evicting && among(vs, entries, g, entries[vs[k].at as int].id@)) || g.contains(
            k as usize,
        ) by {
            let id = entries[vs[k].at as int].id@;
            if k < j - 1 {
                if p.contains(k as usize) {
                    let m = choose|m: int| 0 <= m < p.len() && p[m] == k as usize;
                    assert(g[m] == k as usize);
                } else if evicting && among(vs, entries, p, id) {
                    let m = choose|m: int|
                        0 <= m < p.len() && entries[vs[(#[trigger] p[m]) as int].at as int].id@ == id;
                    assert(entries[vs[g[m] as int].at as int].id@ == id);
                }
            } else {
                if busy.contains(id) {
                } else if evicting && among(vs, entries, p, id) {
                    assert(g == p);
                } else {
                    assert(g[p.len() as int] == k as usize);
                }
            }
        }
    } else {
        assert(got.take(got.len() as int) =~= got);
    }
}

/// A run of victims is one group of one standing.
pub proof fn run_is_one_group(vs: Seq<Victim>, i: int, j: int)
    requires
        0 <= i < j <= vs.len(),
    ensures
        j <= run_end(vs, i, j) <= vs.len(),
        forall|k: int|
            j <= k < run_end(vs, i, j) ==> (#[trigger] vs[k]).standing == vs[i].standing
                && vs[k].group == vs[i].group,
    decreases vs.len() - j,
{
    if j < vs.len() && vs[j].standing == vs[i].standing && vs[j].group == vs[i].group {
        run_is_one_group(vs, i, j + 1);
    }
}

/// Taking victims in turn spares what is busy and, short of an eviction, what is resident.
pub proof fn taking_is_sound(
    vs: Seq<Victim>,
    entries: Seq<IndexEntry>,
    busy: Set<Seq<char>>,
    evicting: bool,
    need: int,
    got: Seq<usize>,
    i: int,
)
    requires
        0 <= i <= vs.len(),
        vs.len() <= usize::MAX,
        sound_taking(vs, entries, busy, evicting, got),
        forall|k: int| 0 <= k < got.len() ==> (#[trigger] got[k]) < i,
    ensures
        sound_taking(vs, entries, busy, evicting, take_from(vs, entries, busy, evicting, need, got, i)),
    decreases vs.len() - i,
{
    if i >= vs.len() || freed(vs, entries, got) >= need || (!evicting
        && vs[i].standing is Resident) {
    } else {
        run_end_is_ahead(vs, i, i + 1);
        run_is_one_group(vs, i, i + 1);
        let j = unit_end(vs, i);
        gather_is_sound(vs, entries, busy, evicting, got, i, j);
        taking_is_sound(
            vs,
            entries,
            busy,
            evicting,
            need,
            gather(vs, entries, busy, evicting, got, i, j),
            j,
        );
    }
}

/// Positions of the entries that a taking takes.
pub open spec fn places_of(vs: Seq<Victim>, got: Seq<usize>) -> Seq<usize> {
    Seq::new(got.len(), |k: int| vs[got[k] as int].at)
}

/// An id that a pass evicts: an evictable entry carries it, and the pass does not fetch it.
pub open spec fn rightly_evicted(input: PassInput, id: SongId) -> bool {
    !fetching(bulk_of(input).fetches, id@) && exists|i: int|
        0 <= i < input.entries@.len() && evictable(input, #[trigger] input.entries@[i])
            && input.entries@[i].id == id
}

// The bulk work.

/// Bytes of the entries at these positions.
pub open spec fn bytes_at(entries: Seq<IndexEntry>, at: Seq<usize>) -> int
    decreases at.len(),
{
    if at.len() == 0 {
        0
    } else {
        bytes_at(entries, at.drop_last()) + entries[at.last() as int].size
    }
}

/// The ids at these positions.
pub open spec fn ids_at(entries: Seq<IndexEntry>, at: Seq<usize>) -> Seq<SongId> {
    Seq::new(at.len(), |k: int| entries[at[k] as int].id)
}

/// What holds of the bulk work at every point: sound fetches, each for its reason, and what
/// was reclaimed is evictable, on disk and not fetched.
pub open spec fn sound_bulk(input: PassInput, b: Bulk, gone: Seq<usize>) -> bool {
    &&& sound_fetches(b.fetches, input.download_batch as int)
    &&& forall|k: int|
        0 <= k < b.fetches.len() ==> audible(input, #[trigger] b.fetches[k]) || bulky(
            input,
            b.fetches[k],
        )
    &&& b.reclaimed == ids_at(input.entries@, gone)
    &&& forall|k: int|
        0 <= k < gone.len() ==> (#[trigger] gone[k]) < input.entries@.len() && evictable(
            input,
            input.entries@[gone[k] as int],
        ) && !fetching(b.fetches, input.entries@[gone[k] as int].id@)
}

proof fn stale_work_is_sound(input: PassInput, n: int)
    requires
        input.may_write(),
        0 <= n <= input.entries@.len(),
    ensures
        sound_bulk(input, after_stale(input, n), Seq::empty()),
        after_stale(input, n).reclaimed.len() == 0,
    decreases n,
{
    assert(ids_at(input.entries@, Seq::empty()) =~= Seq::empty());
    if n > 0 {
        stale_work_is_sound(input, n - 1);
        let b = after_stale(input, n - 1);
        let c = after_stale(input, n);
        let e = input.entries@[n - 1];
        enlist_keeps_sound(b.fetches, input.download_batch as int, e.id, DownloadReason::Stale);
        assert forall|k: int| 0 <= k < c.fetches.len() implies audible(
            input,
            #[trigger] c.fetches[k],
        ) || bulky(input, c.fetches[k]) by {
            if k < b.fetches.len() {
                assert(c.fetches[k] == b.fetches[k]);
            } else {
                assert(wants_replacement(input, input.entries@[n - 1]));
            }
        }
    } else {
        audible_windows(input, input.window@.len() as int);
    }
}

/// What a group is due is held by it, and not on disk.
proof fn due_is_held_and_absent(input: PassInput, slot: int)
    ensures
        forall|j: int|
            0 <= j < due(input, slot).len() ==> ({
                let id = input.line().groups[slot].songs@[(#[trigger] due(input, slot)[j]) as int].id@;
                !cached(input.entries@, id) && claim_slot(input.line().walk.claims, id) is Some
                    && claim_slot(input.line().walk.claims, id)->0 == slot
            }),
{
    let songs = input.line().groups[slot].songs@;
    assert(songs.len() == input.line().groups[slot].songs.len());
    let skip = not_due(input.line().walk.claims, input.entries@, slot);
    picks_are_picked(songs, skip, songs.len() as int);
}

/// Fetching what a group is due keeps the fetches sound, and touches nothing on disk.
proof fn fetching_the_due(input: PassInput, f: Seq<Fetch>, slot: int)
    requires
        input.judging(),
        sound_fetches(f, input.download_batch as int),
        forall|k: int|
            0 <= k < f.len() ==> audible(input, #[trigger] f[k]) || bulky(input, f[k]),
    ensures
        ({
            let songs = input.line().groups[slot].songs@;
            let at = due(input, slot);
            let g = enlist_all(f, input.download_batch as int, songs, at, at.len() as int);
            &&& sound_fetches(g, input.download_batch as int)
            &&& f.len() <= g.len()
            &&& forall|k: int|
                0 <= k < g.len() ==> audible(input, #[trigger] g[k]) || bulky(input, g[k])
            &&& forall|id: Seq<char>|
                cached(input.entries@, id) && !fetching(f, id) ==> !#[trigger] fetching(g, id)
        }),
{
    let songs = input.line().groups[slot].songs@;
    let at = due(input, slot);
    let batch = input.download_batch as int;
    due_is_held_and_absent(input, slot);
    enlist_all_keeps_sound(f, batch, songs, at, at.len() as int);
    let g = enlist_all(f, batch, songs, at, at.len() as int);
    assert forall|m: int| f.len() <= m < g.len() implies bulky(input, #[trigger] g[m]) && !cached(
        input.entries@,
        g[m].id@,
    ) by {
        let j = choose|j: int| 0 <= j < at.len() && g[m].id == songs[(#[trigger] at[j]) as int].id;
        assert(!cached(input.entries@, songs[at[j] as int].id@));
    }
    assert forall|m: int| 0 <= m < g.len() implies audible(input, #[trigger] g[m]) || bulky(
        input,
        g[m],
    ) by {
        if m < f.len() {
            assert(g[m] == f[m]);
        }
    }
    assert forall|id: Seq<char>| cached(input.entries@, id) && !fetching(f, id) implies !#[trigger] fetching(
        g,
        id,
    ) by {
        if fetching(g, id) {
            let m = choose|m: int| 0 <= m < g.len() && (#[trigger] g[m]).id@ == id;
            if m < f.len() {
                assert(g[m] == f[m]);
            }
        }
    }
}

/// A taking names no position twice, nor one that was taken before.
proof fn takings_are_fresh(
    vs: Seq<Victim>,
    entries: Seq<IndexEntry>,
    fetches: Seq<Fetch>,
    gone: Seq<usize>,
    evicting: bool,
    got: Seq<usize>,
)
    requires
        forall|a: int, b: int|
            0 <= a < b < vs.len() ==> (#[trigger] vs[a]).at != (#[trigger] vs[b]).at,
        sound_taking(vs, entries, busy_ids(fetches, ids_at(entries, gone)), evicting, got),
        gone.no_duplicates(),
    ensures
        (gone + places_of(vs, got)).no_duplicates(),
        forall|k: int|
            0 <= k < got.len() ==> !fetching(
                fetches,
                entries[(#[trigger] places_of(vs, got)[k]) as int].id@,
            ),
{
    let more = places_of(vs, got);
    let all = gone + more;
    let busy = busy_ids(fetches, ids_at(entries, gone));
    assert forall|k: int| 0 <= k < got.len() implies !busy.contains(
        entries[(#[trigger] more[k]) as int].id@,
    ) by {
        assert(more[k] == vs[got[k] as int].at);
    }
    assert forall|x: int, y: int| 0 <= x < gone.len() && 0 <= y < more.len() implies gone[x]
        != more[y] by {
        assert(!busy.contains(entries[more[y] as int].id@));
        assert(ids_at(entries, gone)[x] == entries[gone[x] as int].id);
        if gone[x] == more[y] {
            assert(ids_at(entries, gone)[x]@ == entries[more[y] as int].id@);
        }
    }
    assert forall|x: int, y: int| 0 <= x < y < more.len() implies more[x] != more[y] by {
        assert(got[x] < got[y]);
        assert(vs[got[x] as int].at != vs[got[y] as int].at);
    }
    assert forall|x: int, y: int| 0 <= x < all.len() && 0 <= y < all.len() && x != y implies all[x]
        != all[y] by {
        let n = gone.len() as int;
        if x < n && y < n {
            assert(gone[x] != gone[y]);
        } else if x < n {
            assert(gone[x] != more[y - n]);
        } else if y < n {
            assert(gone[y] != more[x - n]);
        } else if x < y {
            assert(more[x - n] != more[y - n]);
        } else {
            assert(more[y - n] != more[x - n]);
        }
    }
}

/// What is taken to make room is evictable, not fetched, and not taken already.
pub proof fn reclaiming_is_sound(input: PassInput, b: Bulk, gone: Seq<usize>, want: int)
    requires
        input.full(),
        sound_bulk(input, b, gone),
        gone.no_duplicates(),
    ensures
        ({
            let got = reclaim(input, b, want);
            let more = places_of(victims(input), got);
            &&& ids_of(victims(input), input.entries@, got) == ids_at(input.entries@, more)
            &&& forall|k: int|
                0 <= k < more.len() ==> (#[trigger] more[k]) < input.entries@.len() && evictable(
                    input,
                    input.entries@[more[k] as int],
                ) && !fetching(b.fetches, input.entries@[more[k] as int].id@)
            &&& (gone + more).no_duplicates()
            &&& freed(victims(input), input.entries@, got) == bytes_at(input.entries@, more)
        }),
{
    let vs = victims(input);
    let entries = input.entries@;
    let got = reclaim(input, b, want);
    let more = places_of(vs, got);
    victims_are_evictable(input);
    taking_is_sound(vs, entries, busy_ids(b.fetches, b.reclaimed), false, want, Seq::empty(), 0);
    takings_are_fresh(vs, entries, b.fetches, gone, false, got);
    assert(ids_of(vs, entries, got) =~= ids_at(entries, more));
    assert forall|k: int| 0 <= k < more.len() implies (#[trigger] more[k]) < entries.len()
        && evictable(input, entries[more[k] as int]) && !fetching(
        b.fetches,
        entries[more[k] as int].id@,
    ) by {
        assert(more[k] == vs[got[k] as int].at);
    }
    freed_is_bytes_at(vs, entries, got);
}

proof fn freed_is_bytes_at(vs: Seq<Victim>, entries: Seq<IndexEntry>, got: Seq<usize>)
    ensures
        freed(vs, entries, got) == bytes_at(entries, places_of(vs, got)),
    decreases got.len(),
{
    if got.len() > 0 {
        freed_is_bytes_at(vs, entries, got.drop_last());
        assert(places_of(vs, got).drop_last() =~= places_of(vs, got.drop_last()));
    }
}

/// What a group's turn reclaims.
pub open spec fn turn_reclaims(input: PassInput, b: Bulk, slot: int) -> Seq<usize> {
    let line = input.line();
    let at = due(input, slot);
    let outstanding = capped(weight(line.groups[slot].songs@, line.sizes, at));
    let want = outstanding - b.headroom;
    if b.fetches.len() >= input.download_batch || !line.walk.resident[slot] || at.len() == 0
        || outstanding <= b.headroom || room_after(
        input,
        b,
        capped(freed(victims(input), input.entries@, reclaim(input, b, want))),
    ) < outstanding {
        Seq::empty()
    } else {
        places_of(victims(input), reclaim(input, b, want))
    }
}

/// What the first `k` groups reclaim, as positions of the entries.
pub open spec fn reclaimed_at(input: PassInput, k: int) -> Seq<usize>
    decreases k,
{
    if k <= 0 {
        Seq::empty()
    } else {
        reclaimed_at(input, k - 1) + turn_reclaims(input, after_backfill(input, k - 1), k - 1)
    }
}

/// The bulk work of a judging pass is sound after any number of groups, and reclaims no
/// entry twice.
pub proof fn backfill_is_sound(input: PassInput, k: int)
    requires
        input.judging(),
        input.may_write(),
        0 <= k <= input.line().groups.len(),
    ensures
        sound_bulk(input, after_backfill(input, k), reclaimed_at(input, k)),
        reclaimed_at(input, k).no_duplicates(),
    decreases k,
{
    if k == 0 {
        stale_work_is_sound(input, input.entries@.len() as int);
    } else {
        backfill_is_sound(input, k - 1);
        backfill_step_is_sound(
            input,
            after_backfill(input, k - 1),
            reclaimed_at(input, k - 1),
            k - 1,
        );
    }
}

proof fn backfill_step_is_sound(input: PassInput, b: Bulk, gone: Seq<usize>, slot: int)
    requires
        input.judging(),
        sound_bulk(input, b, gone),
        gone.no_duplicates(),
    ensures
        sound_bulk(input, backfill_step(input, b, slot), gone + turn_reclaims(input, b, slot)),
        (gone + turn_reclaims(input, b, slot)).no_duplicates(),
{
    let c = backfill_step(input, b, slot);
    let line = input.line();
    let at = due(input, slot);
    let outstanding = capped(weight(line.groups[slot].songs@, line.sizes, at));
    let want = outstanding - b.headroom;
    let more = turn_reclaims(input, b, slot);
    let all = gone + more;
    fetching_the_due(input, b.fetches, slot);
    reclaiming_is_sound(input, b, gone, want);
    assert forall|i: int| 0 <= i < input.entries@.len() implies cached(
        input.entries@,
        (#[trigger] input.entries@[i]).id@,
    ) by {
        cached_means_listed(input.entries@, input.entries@[i].id@);
    }
    assert(gone + Seq::<usize>::empty() =~= gone);
    assert(ids_at(input.entries@, all) =~= ids_at(input.entries@, gone) + ids_at(
        input.entries@,
        more,
    ));
    assert(ids_at(input.entries@, Seq::empty()) =~= Seq::empty());
    assert(b.reclaimed + Seq::<SongId>::empty() =~= b.reclaimed);
    assert(c.reclaimed == ids_at(input.entries@, all));
    assert forall|m: int| 0 <= m < all.len() implies (#[trigger] all[m]) < input.entries@.len()
        && evictable(input, input.entries@[all[m] as int]) && !fetching(
        c.fetches,
        input.entries@[all[m] as int].id@,
    ) by {
        if m < gone.len() {
            assert(all[m] == gone[m]);
        } else {
            assert(all[m] == more[m - gone.len()]);
        }
        assert(cached(input.entries@, input.entries@[all[m] as int].id@));
    }
}

/// There are no more victims than entries.
pub proof fn vs_fit(input: PassInput)
    ensures
        victims(input).len() <= usize::MAX,
        input.full() ==> victims(input).len() <= input.entries@.len(),
{
    assert(input.entries@.len() == input.entries.len());
    if input.full() {
        let n = input.entries@.len() as int;
        let c = candidates(input, n);
        candidates_fit(input, n);
        crate::planner::victim_order_is_total(input);
        sorting_keeps_elements(c, victim_order(input));
    }
}

proof fn candidates_fit(input: PassInput, n: int)
    requires
        0 <= n,
    ensures
        candidates(input, n).len() <= n,
    decreases n,
{
    if n > 0 {
        candidates_fit(input, n - 1);
    }
}

/// What the bulk work of a pass reclaims, as positions of its entries.
pub open spec fn all_reclaimed(input: PassInput) -> Seq<usize> {
    if input.may_bulk() && input.judging() {
        reclaimed_at(input, input.line().groups.len() as int)
    } else {
        Seq::empty()
    }
}

/// The bulk work of every pass is sound, and reclaims no entry twice.
pub proof fn bulk_is_sound(input: PassInput) -> (gone: Seq<usize>)
    ensures
        gone == all_reclaimed(input),
        sound_bulk(input, bulk_of(input), gone),
        gone.no_duplicates(),
{
    if input.may_bulk() {
        if input.judging() {
            backfill_is_sound(input, input.line().groups.len() as int);
        } else {
            stale_work_is_sound(input, input.entries@.len() as int);
        }
    } else {
        assert(ids_at(input.entries@, Seq::empty()) =~= Seq::empty());
        if input.may_write() {
            audible_windows(input, input.window@.len() as int);
        }
    }
    all_reclaimed(input)
}

/// What the evictions of a pass take, as positions of its entries.
spec fn last_evicted(input: PassInput) -> Seq<usize> {
    let b = bulk_of(input);
    let floor = eviction_floor(
        input.max_bytes as int,
        input.configured_max as int,
        input.avail as int,
    );
    if input.full() && b.on_disk > floor {
        places_of(
            victims(input),
            take_from(
                victims(input),
                input.entries@,
                busy_ids(b.fetches, b.reclaimed),
                true,
                b.on_disk - floor,
                Seq::empty(),
                0,
            ),
        )
    } else {
        Seq::empty()
    }
}

/// The last evictions take evictable entries that are neither fetched nor reclaimed already.
proof fn last_evictions_are_sound(input: PassInput, gone: Seq<usize>)
    requires
        sound_bulk(input, bulk_of(input), gone),
        gone.no_duplicates(),
    ensures
        evictions(input) == ids_at(input.entries@, last_evicted(input)),
        forall|k: int|
            0 <= k < last_evicted(input).len() ==> (#[trigger] last_evicted(input)[k])
                < input.entries@.len() && evictable(
                input,
                input.entries@[last_evicted(input)[k] as int],
            ) && !fetching(
                bulk_of(input).fetches,
                input.entries@[last_evicted(input)[k] as int].id@,
            ),
        (gone + last_evicted(input)).no_duplicates(),
{
    let b = bulk_of(input);
    let floor = eviction_floor(
        input.max_bytes as int,
        input.configured_max as int,
        input.avail as int,
    );
    let entries = input.entries@;
    if input.full() && b.on_disk > floor {
        let vs = victims(input);
        let need = b.on_disk - floor;
        let busy = busy_ids(b.fetches, b.reclaimed);
        let got = take_from(vs, entries, busy, true, need, Seq::empty(), 0);
        let more = places_of(vs, got);
        victims_are_evictable(input);
        taking_is_sound(vs, entries, busy, true, need, Seq::empty(), 0);
        takings_are_fresh(vs, entries, b.fetches, gone, true, got);
        assert(ids_of(vs, entries, got) =~= ids_at(entries, more));
        assert forall|k: int| 0 <= k < more.len() implies (#[trigger] more[k]) < entries.len()
            && evictable(input, entries[more[k] as int]) && !fetching(
            b.fetches,
            entries[more[k] as int].id@,
        ) by {
            assert(more[k] == vs[got[k] as int].at);
        }
    } else {
        assert(ids_at(entries, Seq::empty()) =~= Seq::empty());
        assert(gone + Seq::<usize>::empty() =~= gone);
    }
}

/// Every eviction of a plan takes an evictable entry that the plan does not fetch.
proof fn evictions_are_right(input: PassInput, i: int)
    requires
        0 <= i < plan_of(input).len(),
        plan_of(input)[i] is Evict,
    ensures
        rightly_evicted(input, plan_of(input)[i]->Evict_0),
{
    plan_parts(input);
    let gone = bulk_is_sound(input);
    last_evictions_are_sound(input, gone);
    let b = bulk_of(input);
    let id = plan_of(input)[i]->Evict_0;
    if exists|k: int|
        0 <= k < b.reclaimed.len() && plan_of(input)[i] == StoreAction::Evict(
            #[trigger] b.reclaimed[k],
        ) {
        let k = choose|k: int|
            0 <= k < b.reclaimed.len() && plan_of(input)[i] == StoreAction::Evict(
                #[trigger] b.reclaimed[k],
            );
        assert(id == input.entries@[gone[k] as int].id);
        assert(evictable(input, input.entries@[gone[k] as int]));
    } else {
        let k = choose|k: int|
            0 <= k < evictions(input).len() && plan_of(input)[i] == StoreAction::Evict(
                #[trigger] evictions(input)[k],
            );
        let at = last_evicted(input);
        assert(id == input.entries@[at[k] as int].id);
        assert(evictable(input, input.entries@[at[k] as int]));
    }
}

/// No plan fetches an id and evicts it: the executor never downloads bytes only to delete
/// them.
pub proof fn plans_never_fetch_what_they_evict(input: PassInput, i: int, j: int)
    requires
        0 <= i < plan_of(input).len(),
        0 <= j < plan_of(input).len(),
        plan_of(input)[i] is Download,
        plan_of(input)[j] is Evict,
    ensures
        plan_of(input)[i]->Download_id@ != plan_of(input)[j]->Evict_0@,
{
    plan_parts(input);
    evictions_are_right(input, j);
    let b = bulk_of(input);
    let k = choose|k: int|
        0 <= k < b.fetches.len() && plan_of(input)[i] == (StoreAction::Download {
            id: (#[trigger] b.fetches[k]).id,
            reason: b.fetches[k].reason,
        });
    assert(fetching(b.fetches, b.fetches[k].id@));
}

/// Nothing in the queue window, and nothing protected, is ever evicted. Without a pin set to
/// judge by, nothing pinned is either: a server that cannot be asked costs no starred file.
pub proof fn plans_spare_what_is_protected(input: PassInput, i: int)
    requires
        0 <= i < plan_of(input).len(),
        plan_of(input)[i] is Evict,
    ensures
        !is_protected(input, plan_of(input)[i]->Evict_0@),
        exists|k: int|
            0 <= k < input.entries@.len() && (#[trigger] input.entries@[k]).id
                == plan_of(input)[i]->Evict_0 && (input.judging() || !input.entries@[k].pinned),
{
    evictions_are_right(input, i);
}

/// Where no two entries share an id, no id is evicted twice.
pub proof fn plans_evict_an_id_once(input: PassInput, i: int, j: int)
    requires
        distinct_entries(input.entries@),
        0 <= i < j < plan_of(input).len(),
        plan_of(input)[i] is Evict,
        plan_of(input)[j] is Evict,
    ensures
        plan_of(input)[i]->Evict_0@ != plan_of(input)[j]->Evict_0@,
{
    let gone = bulk_is_sound(input);
    last_evictions_are_sound(input, gone);
    let b = bulk_of(input);
    let at = last_evicted(input);
    let all = gone + at;
    let h = housekeeping(input);
    let m = marks(input);
    let r = as_evictions(b.reclaimed);
    let d = as_downloads(b.fetches);
    let f = if input.full() {
        flushes(input, input.entries@.len() as int)
    } else {
        Seq::empty()
    };
    let e = as_evictions(evictions(input));
    marks_are_marks(input);
    flushes_are_flushes(input, input.entries@.len() as int);
    part_phase(h, m, r, d, f, e, i);
    part_phase(h, m, r, d, f, e, j);
    let n2 = h.len() + m.len();
    let n5 = n2 + r.len() + d.len() + f.len();
    let x = if i < n5 { i - n2 } else { gone.len() + i - n5 };
    let y = if j < n5 { j - n2 } else { gone.len() + j - n5 };
    let plan = plan_of(input);
    assert(plan == h + m + r + d + f + e);
    assert(0 <= x < y < all.len());
    assert(plan[i]->Evict_0 == input.entries@[all[x] as int].id) by {
        if i < n5 {
            assert(plan[i] == r[i - n2]);
            assert(all[x] == gone[x]);
        } else {
            assert(plan[i] == e[i - n5]);
            assert(all[x] == at[i - n5]);
        }
    }
    assert(plan[j]->Evict_0 == input.entries@[all[y] as int].id) by {
        if j < n5 {
            assert(plan[j] == r[j - n2]);
            assert(all[y] == gone[y]);
        } else {
            assert(plan[j] == e[j - n5]);
            assert(all[y] == at[j - n5]);
        }
    }
    assert(all[x] != all[y]);
    assert(all[x] < input.entries@.len() && all[y] < input.entries@.len()) by {
        if x < gone.len() {
            assert(all[x] == gone[x]);
        } else {
            assert(all[x] == at[x - gone.len()]);
        }
        if y < gone.len() {
            assert(all[y] == gone[y]);
        } else {
            assert(all[y] == at[y - gone.len()]);
        }
    }
    if all[x] < all[y] {
        assert(input.entries@[all[x] as int].id@ != input.entries@[all[y] as int].id@);
    } else {
        assert(input.entries@[all[y] as int].id@ != input.entries@[all[x] as int].id@);
    }
}

/// Every download has its reason: a suspect entry; a window id with nothing cached; an entry
/// that is stale or drifted; or a track that a group above the line holds and that is not on
/// disk. What is below the line is never fetched for a pin.
pub proof fn downloads_have_their_reason(input: PassInput, i: int)
    requires
        0 <= i < plan_of(input).len(),
        plan_of(input)[i] is Download,
    ensures
        storable(plan_of(input)[i]->Download_id@),
        ({
            let x = Fetch {
                id: plan_of(input)[i]->Download_id,
                reason: plan_of(input)[i]->Download_reason,
            };
            audible(input, x) || bulky(input, x)
        }),
{
    plan_parts(input);
    let gone = bulk_is_sound(input);
    let b = bulk_of(input);
    let k = choose|k: int|
        0 <= k < b.fetches.len() && plan_of(input)[i] == (StoreAction::Download {
            id: (#[trigger] b.fetches[k]).id,
            reason: b.fetches[k].reason,
        });
    assert(storable(b.fetches[k].id@));
    assert(audible(input, b.fetches[k]) || bulky(input, b.fetches[k]));
}

/// A plan's downloads, in order.
pub open spec fn downloads_in(plan: Seq<StoreAction>) -> Seq<StoreAction> {
    plan.filter(|a: StoreAction| a is Download)
}

proof fn no_downloads(s: Seq<StoreAction>)
    requires
        forall|i: int| 0 <= i < s.len() ==> phase(#[trigger] s[i]) != 5,
    ensures
        downloads_in(s).len() == 0,
    decreases s.len(),
{
    reveal(Seq::filter);
    if s.len() > 0 {
        assert forall|i: int| 0 <= i < s.drop_last().len() implies phase(
            #[trigger] s.drop_last()[i],
        ) != 5 by {
            assert(s.drop_last()[i] == s[i]);
        }
        no_downloads(s.drop_last());
        assert(phase(s[s.len() - 1]) != 5);
    }
}

proof fn only_downloads(s: Seq<StoreAction>)
    requires
        forall|i: int| 0 <= i < s.len() ==> phase(#[trigger] s[i]) == 5,
    ensures
        downloads_in(s) == s,
    decreases s.len(),
{
    reveal(Seq::filter);
    if s.len() > 0 {
        assert forall|i: int| 0 <= i < s.drop_last().len() implies phase(
            #[trigger] s.drop_last()[i],
        ) == 5 by {
            assert(s.drop_last()[i] == s[i]);
        }
        only_downloads(s.drop_last());
        assert(phase(s[s.len() - 1]) == 5);
        assert(s.drop_last().push(s.last()) =~= s);
    }
}

/// A plan downloads no more than the batch allows, and nothing twice: an id is fetched once,
/// for the most pressing of its reasons.
#[verifier::rlimit(30)]
pub proof fn downloads_fit_the_batch(input: PassInput)
    ensures
        downloads_in(plan_of(input)).len() <= input.download_batch,
        downloads_in(plan_of(input)) == as_downloads(bulk_of(input).fetches),
        forall|i: int, j: int|
            0 <= i < j < downloads_in(plan_of(input)).len() ==> (#[trigger] downloads_in(
                plan_of(input),
            )[i])->Download_id@ != (#[trigger] downloads_in(plan_of(input))[j])->Download_id@,
{
    let gone = bulk_is_sound(input);
    let b = bulk_of(input);
    let h = housekeeping(input);
    let m = marks(input);
    let r = as_evictions(b.reclaimed);
    let d = as_downloads(b.fetches);
    let f = if input.full() {
        flushes(input, input.entries@.len() as int)
    } else {
        Seq::empty()
    };
    let e = as_evictions(evictions(input));
    marks_are_marks(input);
    flushes_are_flushes(input, input.entries@.len() as int);
    no_downloads(h);
    no_downloads(m);
    no_downloads(r);
    no_downloads(f);
    no_downloads(e);
    only_downloads(d);
    let is_download = |a: StoreAction| a is Download;
    Seq::filter_distributes_over_add(h, m, is_download);
    Seq::filter_distributes_over_add(h + m, r, is_download);
    Seq::filter_distributes_over_add(h + m + r, d, is_download);
    Seq::filter_distributes_over_add(h + m + r + d, f, is_download);
    Seq::filter_distributes_over_add(h + m + r + d + f, e, is_download);
    assert(downloads_in(plan_of(input)) =~= d);
}

/// A light pass does nothing but fetch what is about to be heard: it deletes, marks, flushes
/// and evicts nothing, whatever it is handed.
pub proof fn light_passes_only_fetch_the_audible(input: PassInput, i: int)
    requires
        !input.full(),
        0 <= i < plan_of(input).len(),
    ensures
        plan_of(input)[i] is Download,
        plan_of(input)[i]->Download_reason == DownloadReason::Suspect
            || plan_of(input)[i]->Download_reason == DownloadReason::Window,
{
    waiting_passes_only_fetch_the_audible(input, i);
    plan_parts(input);
    let a = plan_of(input)[i];
    assert(phase(a) == 5);
}

/// While bulk work waits - remote playback, a pause by hand, a light pass - only what is about
/// to be heard is fetched, and nothing is reclaimed to make room.
pub proof fn waiting_passes_only_fetch_the_audible(input: PassInput, i: int)
    requires
        !input.may_bulk(),
        0 <= i < plan_of(input).len(),
        plan_of(input)[i] is Download,
    ensures
        plan_of(input)[i]->Download_reason == DownloadReason::Suspect
            || plan_of(input)[i]->Download_reason == DownloadReason::Window,
        bulk_of(input).reclaimed.len() == 0,
{
    plan_parts(input);
    let b = bulk_of(input);
    let k = choose|k: int|
        0 <= k < b.fetches.len() && plan_of(input)[i] == (StoreAction::Download {
            id: (#[trigger] b.fetches[k]).id,
            reason: b.fetches[k].reason,
        });
    if input.may_write() {
        audible_windows(input, input.window@.len() as int);
        assert(audible(input, b.fetches[k]));
    }
}

/// A breached reserve writes nothing: with a budget of zero there is no download of any
/// reason, on any pass.
pub proof fn a_breached_reserve_fetches_nothing(input: PassInput, i: int)
    requires
        input.max_bytes == 0,
        0 <= i < plan_of(input).len(),
    ensures
        !(plan_of(input)[i] is Download),
{
    plan_parts(input);
}

/// Which part of a plan an action of it stands in.
proof fn actions_have_their_part(input: PassInput, a: StoreAction)
    ensures
        phase(a) <= 2 ==> (plan_of(input).contains(a) <==> housekeeping(input).contains(a)),
        phase(a) == 6 ==> (plan_of(input).contains(a) <==> input.full() && flushes(
            input,
            input.entries@.len() as int,
        ).contains(a)),
        a is Download ==> (plan_of(input).contains(a) <==> as_downloads(
            bulk_of(input).fetches,
        ).contains(a)),
{
    let b = bulk_of(input);
    let h = housekeeping(input);
    let m = marks(input);
    let r = as_evictions(b.reclaimed);
    let d = as_downloads(b.fetches);
    let f = if input.full() {
        flushes(input, input.entries@.len() as int)
    } else {
        Seq::empty()
    };
    let e = as_evictions(evictions(input));
    marks_are_marks(input);
    flushes_are_flushes(input, input.entries@.len() as int);
    let plan = plan_of(input);
    assert(plan == h + m + r + d + f + e);
    let n3 = h.len() + m.len() + r.len();
    let n4 = n3 + d.len();
    if plan.contains(a) {
        let k = choose|k: int| 0 <= k < plan.len() && plan[k] == a;
        part_phase(h, m, r, d, f, e, k);
        if phase(a) <= 2 {
            assert(h[k] == a);
        } else if phase(a) == 6 {
            assert(f[k - n4] == a);
        } else if a is Download {
            assert(d[k - n3] == a);
        }
    }
    if phase(a) <= 2 && h.contains(a) {
        let k = choose|k: int| 0 <= k < h.len() && h[k] == a;
        assert(plan[k] == a);
    }
    if phase(a) == 6 && f.contains(a) {
        let k = choose|k: int| 0 <= k < f.len() && f[k] == a;
        assert(plan[n4 + k] == a);
    }
    if a is Download && d.contains(a) {
        let k = choose|k: int| 0 <= k < d.len() && d[k] == a;
        assert(plan[n3 + k] == a);
    }
}

/// A full pass clears away exactly what the scan found: every temporary, every loose file and
/// every entry that cannot be valid, and nothing else. Any other pass clears away nothing.
pub proof fn housekeeping_is_what_the_scan_found(
    input: PassInput,
    path: String,
    id: SongId,
    reason: DeleteReason,
)
    ensures
        plan_of(input).contains(StoreAction::SweepTmp(path)) <==> input.mode == PassMode::Full
            && input.stale_tmps@.contains(path),
        plan_of(input).contains(StoreAction::DeleteFile(path)) <==> input.mode == PassMode::Full
            && input.orphan_audio@.contains(path),
        plan_of(input).contains(StoreAction::DeleteEntry { id, reason }) <==> input.mode
            == PassMode::Full && input.orphan_sidecars@.contains((id, reason)),
{
    let h = housekeeping(input);
    let t = StoreAction::SweepTmp(path);
    let f = StoreAction::DeleteFile(path);
    let e = StoreAction::DeleteEntry { id, reason };
    actions_have_their_part(input, t);
    actions_have_their_part(input, f);
    actions_have_their_part(input, e);
    let a = input.stale_tmps@;
    let b = input.orphan_audio@;
    let c = input.orphan_sidecars@;
    if input.full() {
        assert forall|k: int| 0 <= k < h.len() implies #[trigger] h[k] == (if k < a.len() {
            StoreAction::SweepTmp(a[k])
        } else if k < a.len() + b.len() {
            StoreAction::DeleteFile(b[k - a.len()])
        } else {
            StoreAction::DeleteEntry {
                id: c[k - a.len() - b.len()].0,
                reason: c[k - a.len() - b.len()].1,
            }
        }) by {}
        assert(h.len() == a.len() + b.len() + c.len());
        if a.contains(path) {
            let k = choose|k: int| 0 <= k < a.len() && a[k] == path;
            assert(h[k] == t);
        }
        if b.contains(path) {
            let k = choose|k: int| 0 <= k < b.len() && b[k] == path;
            assert(h[a.len() + k] == f);
        }
        if c.contains((id, reason)) {
            let k = choose|k: int| 0 <= k < c.len() && c[k] == (id, reason);
            assert(h[a.len() + b.len() + k] == e);
        }
        if h.contains(t) {
            let k = choose|k: int| 0 <= k < h.len() && h[k] == t;
            assert(a[k] == path);
        }
        if h.contains(f) {
            let k = choose|k: int| 0 <= k < h.len() && h[k] == f;
            assert(b[k - a.len()] == path);
        }
        if h.contains(e) {
            let k = choose|k: int| 0 <= k < h.len() && h[k] == e;
            assert(c[k - a.len() - b.len()] == (id, reason));
        }
    }
}

proof fn flushes_are_the_dirty(input: PassInput, n: int, a: StoreAction)
    requires
        0 <= n <= input.entries@.len(),
    ensures
        flushes(input, n).contains(a) <==> exists|i: int|
            0 <= i < n && (#[trigger] input.entries@[i]).recency_dirty && a
                == (StoreAction::FlushRecency {
                id: input.entries@[i].id,
                last_played_unix: input.entries@[i].last_played_unix,
            }),
    decreases n,
{
    let f = flushes(input, n);
    if n > 0 {
        flushes_are_the_dirty(input, n - 1, a);
        let was = flushes(input, n - 1);
        let e = input.entries@[n - 1];
        if f.contains(a) {
            let k = choose|k: int| 0 <= k < f.len() && f[k] == a;
            if k < was.len() {
                assert(was[k] == a);
                assert(was.contains(a));
            } else {
                assert(input.entries@[n - 1].recency_dirty);
            }
        }
        if exists|i: int|
            0 <= i < n && (#[trigger] input.entries@[i]).recency_dirty && a
                == (StoreAction::FlushRecency {
                id: input.entries@[i].id,
                last_played_unix: input.entries@[i].last_played_unix,
            }) {
            let i = choose|i: int|
                0 <= i < n && (#[trigger] input.entries@[i]).recency_dirty && a
                    == (StoreAction::FlushRecency {
                    id: input.entries@[i].id,
                    last_played_unix: input.entries@[i].last_played_unix,
                });
            if i < n - 1 {
                assert(was.contains(a));
                let k = choose|k: int| 0 <= k < was.len() && was[k] == a;
                assert(f[k] == a);
            } else {
                assert(f[was.len() as int] == a);
            }
        }
    }
}

/// A full pass writes out exactly the recency that was bumped, as it stands, and any other pass
/// none.
pub proof fn bumped_recency_is_written_out(input: PassInput, id: SongId, last_played_unix: u64)
    ensures
        plan_of(input).contains(StoreAction::FlushRecency { id, last_played_unix }) <==> input.mode
            == PassMode::Full && exists|i: int|
            0 <= i < input.entries@.len() && (#[trigger] input.entries@[i]).recency_dirty
                && input.entries@[i].id == id && input.entries@[i].last_played_unix
                == last_played_unix,
{
    let a = StoreAction::FlushRecency { id, last_played_unix };
    actions_have_their_part(input, a);
    flushes_are_the_dirty(input, input.entries@.len() as int, a);
}

/// The downloads of a plan are those that its bulk work lists.
pub proof fn plans_fetch_what_is_listed(input: PassInput, k: int)
    requires
        0 <= k < bulk_of(input).fetches.len(),
    ensures
        plan_of(input).contains(
            StoreAction::Download {
                id: bulk_of(input).fetches[k].id,
                reason: bulk_of(input).fetches[k].reason,
            },
        ),
{
    let f = bulk_of(input).fetches[k];
    let a = StoreAction::Download { id: f.id, reason: f.reason };
    actions_have_their_part(input, a);
    assert(as_downloads(bulk_of(input).fetches)[k] == a);
}

} // verus!
