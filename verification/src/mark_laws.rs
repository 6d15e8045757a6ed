//! What holds of the marks of every pass.
use crate::books::distinct_entries_find_themselves;
use crate::entries::{cached_means_listed, distinct_entries, entry_with, IndexEntry};
use crate::frontier_laws::picks_cover;
use crate::model::Song;
use crate::names::storable;
use crate::plan::{
    demotions, housekeeping, id_order, is_pinned, judged, marks, marks_at, marks_on, plan_of,
    song_with, verdict, wants_replacement, PassInput, StoreAction, Verdict,
};
use crate::plan_laws::{marks_stand_together, phase};
use crate::planner::id_order_is_total;
use crate::score::{lists, own_tracks, picked, picks_are_picked};
use crate::sorting::sorting_keeps_elements;
use crate::verdict_laws::marks_bring_flags_in_line;
use vstd::prelude::*;

verus! {

/// The promotion of the entry of a song.
pub open spec fn promotes(a: StoreAction, s: Song, entries: Seq<IndexEntry>) -> bool {
    entry_with(entries, s.id@) matches Some(e) && !e.pinned && a == (StoreAction::SetPinned {
        id: e.id,
        pinned: true,
    })
}

proof fn promotions_are_right(songs: Seq<Song>, entries: Seq<IndexEntry>, at: Seq<usize>)
    requires
        forall|a: int, b: int|
            0 <= a < b < at.len() ==> songs[(#[trigger] at[a]) as int].id@ != songs[(
            #[trigger] at[b]) as int].id@,
    ensures
        ({
            let m = marks_at(songs, entries, at);
            &&& forall|k: int|
                0 <= k < m.len() && (#[trigger] m[k]) is SetPinned ==> exists|j: int|
                    0 <= j < at.len() && promotes(m[k], songs[(#[trigger] at[j]) as int], entries)
            &&& forall|j: int|
                0 <= j < at.len() && (entry_with(
                    entries,
                    songs[(#[trigger] at[j]) as int].id@,
                ) matches Some(e) && !e.pinned) ==> exists|k: int|
                    0 <= k < m.len() && promotes(#[trigger] m[k], songs[at[j] as int], entries)
            &&& forall|a: int, b: int|
                0 <= a < b < m.len() && (#[trigger] m[a]) is SetPinned && (
                #[trigger] m[b]) is SetPinned ==> m[a]->SetPinned_id@ != m[b]->SetPinned_id@
        }),
    decreases at.len(),
{
    if at.len() > 0 {
        let n = at.len() - 1;
        let rest = at.drop_last();
        assert forall|a: int, b: int| 0 <= a < b < rest.len() implies songs[(
        #[trigger] rest[a]) as int].id@ != songs[(#[trigger] rest[b]) as int].id@ by {
            assert(rest[a] == at[a] && rest[b] == at[b]);
        }
        promotions_are_right(songs, entries, rest);
        let s = songs[at[n] as int];
        let was = marks_at(songs, entries, rest);
        let more = match entry_with(entries, s.id@) {
            Some(e) => marks_on(e, s),
            None => Seq::empty(),
        };
        let m = marks_at(songs, entries, at);
        assert(m == was + more);
        cached_means_listed(entries, s.id@);
        marks_on_promote_once(songs, entries, at[n] as int);
        assert forall|k: int| 0 <= k < m.len() && (#[trigger] m[k]) is SetPinned implies exists|
            j: int,
        |
            0 <= j < at.len() && promotes(m[k], songs[(#[trigger] at[j]) as int], entries) by {
            if k < was.len() {
                assert(m[k] == was[k]);
                let j = choose|j: int|
                    0 <= j < rest.len() && promotes(
                        was[k],
                        songs[(#[trigger] rest[j]) as int],
                        entries,
                    );
                assert(at[j] == rest[j]);
            } else {
                assert(m[k] == more[k - was.len()]);
                assert(promotes(m[k], songs[at[n] as int], entries));
            }
        }
        assert forall|j: int|
            0 <= j < at.len() && (entry_with(
                entries,
                songs[(#[trigger] at[j]) as int].id@,
            ) matches Some(e) && !e.pinned) implies exists|k: int|
            0 <= k < m.len() && promotes(#[trigger] m[k], songs[at[j] as int], entries) by {
            if j < n {
                assert(rest[j] == at[j]);
                let k = choose|k: int|
                    0 <= k < was.len() && promotes(
                        #[trigger] was[k],
                        songs[rest[j] as int],
                        entries,
                    );
                assert(m[k] == was[k]);
            } else {
                let k = was.len() + more.len() - 1;
                assert(m[k] == more[more.len() - 1]);
                assert(promotes(m[k], songs[at[j] as int], entries));
            }
        }
        assert forall|a: int, b: int|
            0 <= a < b < m.len() && (#[trigger] m[a]) is SetPinned && (
            #[trigger] m[b]) is SetPinned implies m[a]->SetPinned_id@ != m[b]->SetPinned_id@ by {
            if b < was.len() {
                assert(m[a] == was[a] && m[b] == was[b]);
            } else {
                assert(m[b] == more[b - was.len()]);
                if a < was.len() {
                    assert(m[a] == was[a]);
                    let j = choose|j: int|
                        0 <= j < rest.len() && promotes(
                            was[a],
                            songs[(#[trigger] rest[j]) as int],
                            entries,
                        );
                    assert(rest[j] == at[j]);
                    cached_means_listed(entries, songs[at[j] as int].id@);
                } else {
                    assert(m[a] == more[a - was.len()]);
                }
            }
        }
    }
}

/// The marks on one entry promote it at most once, and last.
proof fn marks_on_promote_once(songs: Seq<Song>, entries: Seq<IndexEntry>, p: int)
    ensures
        entry_with(entries, songs[p].id@) matches Some(e) ==> ({
            let m = marks_on(e, songs[p]);
            &&& !e.pinned ==> m.len() > 0 && promotes(m[m.len() - 1], songs[p], entries)
            &&& forall|k: int|
                0 <= k < m.len() && (#[trigger] m[k]) is SetPinned ==> k == m.len() - 1 && promotes(
                    m[k],
                    songs[p],
                    entries,
                )
        }),
{
}

/// An action that sets the pin flag of the entry at a place to what the pin set says, which is
/// not what it was.
pub open spec fn flips(a: StoreAction, input: PassInput, i: int) -> bool {
    let e = input.entries@[i];
    e.pinned != is_pinned(input, e.id@) && a == (StoreAction::SetPinned {
        id: e.id,
        pinned: !e.pinned,
    })
}

/// An action that does so for some entry.
pub open spec fn flips_an_entry(a: StoreAction, input: PassInput) -> bool {
    exists|i: int| 0 <= i < input.entries@.len() && #[trigger] flips(a, input, i)
}

/// Some of these actions flips the entry at a place.
pub open spec fn is_flipped(actions: Seq<StoreAction>, input: PassInput, i: int) -> bool {
    exists|k: int| 0 <= k < actions.len() && flips(#[trigger] actions[k], input, i)
}

/// No two of these actions set the pin flag of one id.
pub open spec fn flag_once(actions: Seq<StoreAction>) -> bool {
    forall|a: int, b: int|
        0 <= a < b < actions.len() && (#[trigger] actions[a]) is SetPinned && (
        #[trigger] actions[b]) is SetPinned ==> actions[a]->SetPinned_id@
            != actions[b]->SetPinned_id@
}

/// A demotion among the first `n` entries.
spec fn demotes_an_entry(a: StoreAction, input: PassInput, n: int) -> bool {
    a is SetPinned && !a->SetPinned_pinned && exists|i: int|
        0 <= i < n && #[trigger] flips(a, input, i)
}

proof fn demotions_demote(input: PassInput, n: int)
    requires
        0 <= n <= input.entries@.len(),
    ensures
        forall|k: int|
            0 <= k < demotions(input, n).len() ==> demotes_an_entry(
                #[trigger] demotions(input, n)[k],
                input,
                n,
            ),
    decreases n,
{
    if n > 0 {
        demotions_demote(input, n - 1);
        let was = demotions(input, n - 1);
        let m = demotions(input, n);
        assert forall|k: int| 0 <= k < m.len() implies demotes_an_entry(
            #[trigger] m[k],
            input,
            n,
        ) by {
            if k < was.len() {
                assert(m[k] == was[k]);
                assert(demotes_an_entry(was[k], input, n - 1));
                let i = choose|i: int| 0 <= i < n - 1 && #[trigger] flips(was[k], input, i);
                assert(flips(m[k], input, i));
            } else {
                assert(flips(m[k], input, n - 1));
            }
        }
    }
}

proof fn demotions_miss_none(input: PassInput, n: int, i: int)
    requires
        0 <= i < n <= input.entries@.len(),
        input.entries@[i].pinned,
        !is_pinned(input, input.entries@[i].id@),
    ensures
        is_flipped(demotions(input, n), input, i),
    decreases n,
{
    let was = demotions(input, n - 1);
    let m = demotions(input, n);
    if i < n - 1 {
        demotions_miss_none(input, n - 1, i);
        let k = choose|k: int| 0 <= k < was.len() && flips(#[trigger] was[k], input, i);
        assert(m[k] == was[k]);
    } else {
        assert(flips(m[was.len() as int], input, i));
    }
}

proof fn demotions_demote_once(input: PassInput, n: int)
    requires
        0 <= n <= input.entries@.len(),
        distinct_entries(input.entries@),
    ensures
        flag_once(demotions(input, n)),
    decreases n,
{
    if n > 0 {
        demotions_demote_once(input, n - 1);
        demotions_demote(input, n - 1);
        let was = demotions(input, n - 1);
        let m = demotions(input, n);
        assert forall|a: int, b: int|
            0 <= a < b < m.len() && (#[trigger] m[a]) is SetPinned && (
            #[trigger] m[b]) is SetPinned implies m[a]->SetPinned_id@ != m[b]->SetPinned_id@ by {
            assert(m[a] == was[a]);
            if b < was.len() {
                assert(m[b] == was[b]);
            } else {
                assert(demotes_an_entry(was[a], input, n - 1));
                let i = choose|i: int| 0 <= i < n - 1 && #[trigger] flips(was[a], input, i);
                assert(input.entries@[i].id@ != input.entries@[n - 1].id@);
            }
        }
    }
}

/// The judged songs are the distinct storable ones.
proof fn judged_are_the_pinned(songs: Seq<Song>)
    requires
        songs.len() <= usize::MAX,
    ensures
        ({
            let at = judged(songs);
            &&& forall|j: int|
                0 <= j < at.len() ==> (#[trigger] at[j]) < songs.len() && storable(
                    songs[at[j] as int].id@,
                )
            &&& forall|a: int, b: int|
                0 <= a < b < at.len() ==> songs[(#[trigger] at[a]) as int].id@ != songs[(
                #[trigger] at[b]) as int].id@
            &&& forall|id: Seq<char>|
                storable(id) && #[trigger] lists(songs, id) ==> exists|j: int|
                    0 <= j < at.len() && songs[(#[trigger] at[j]) as int].id@ == id
        }),
{
    let none = Set::<Seq<char>>::empty();
    let own = own_tracks(songs);
    let at = judged(songs);
    picks_are_picked(songs, none, songs.len() as int);
    id_order_is_total(songs);
    assert(own.no_duplicates());
    sorting_keeps_elements(own, id_order(songs));
    assert forall|j: int| 0 <= j < at.len() implies (#[trigger] at[j]) < songs.len() && storable(
        songs[at[j] as int].id@,
    ) && picked(songs, none, at[j] as int) by {
        assert(at.contains(at[j]));
        assert(own.contains(at[j]));
        let k = choose|k: int| 0 <= k < own.len() && own[k] == at[j];
        assert(picked(songs, none, own[k] as int));
    }
    assert forall|a: int, b: int| 0 <= a < b < at.len() implies songs[(
    #[trigger] at[a]) as int].id@ != songs[(#[trigger] at[b]) as int].id@ by {
        let x = at[a] as int;
        let y = at[b] as int;
        assert(x != y);
        assert(picked(songs, none, x) && picked(songs, none, y));
        if x < y {
            assert(songs.take(y)[x] == songs[x]);
        } else {
            assert(songs.take(x)[y] == songs[y]);
        }
    }
    assert forall|id: Seq<char>| storable(id) && #[trigger] lists(songs, id) implies exists|j: int|
        0 <= j < at.len() && songs[(#[trigger] at[j]) as int].id@ == id by {
        let i = choose|i: int| 0 <= i < songs.len() && (#[trigger] songs[i]).id@ == id;
        let k = picks_cover(songs, none, i);
        assert(own.contains(own[k]));
        assert(at.contains(own[k]));
        let j = choose|j: int| 0 <= j < at.len() && at[j] == own[k];
        assert(songs[at[j] as int].id@ == id);
    }
}

/// Every pin mark of a pass flips an entry, and is a promotion exactly where it comes before the
/// demotions.
proof fn pin_marks_flip(input: PassInput)
    requires
        input.judging(),
        input.pinned_songs().len() <= usize::MAX,
    ensures
        forall|k: int|
            0 <= k < marks(input).len() && (#[trigger] marks(input)[k]) is SetPinned
                ==> flips_an_entry(marks(input)[k], input) && (marks(input)[k]->SetPinned_pinned
                <==> k < marks_at(
                input.pinned_songs(),
                input.entries@,
                judged(input.pinned_songs()),
            ).len()),
{
    let songs = input.pinned_songs();
    let entries = input.entries@;
    let at = judged(songs);
    let p = marks_at(songs, entries, at);
    let d = demotions(input, entries.len() as int);
    let m = marks(input);
    judged_are_the_pinned(songs);
    promotions_are_right(songs, entries, at);
    demotions_demote(input, entries.len() as int);
    assert(m == p + d);
    assert forall|k: int| 0 <= k < m.len() && (#[trigger] m[k]) is SetPinned implies flips_an_entry(
        m[k],
        input,
    ) && (m[k]->SetPinned_pinned <==> k < p.len()) by {
        if k < p.len() {
            assert(m[k] == p[k]);
            let j = choose|j: int|
                0 <= j < at.len() && promotes(p[k], songs[(#[trigger] at[j]) as int], entries);
            let id = songs[at[j] as int].id@;
            cached_means_listed(entries, id);
            let i = choose|i: int|
                0 <= i < entries.len() && entry_with(entries, id) == Some(#[trigger] entries[i])
                    && entries[i].id@ == id;
            assert(lists(songs, id));
            assert(flips(m[k], input, i));
        } else {
            assert(m[k] == d[k - p.len()]);
            assert(demotes_an_entry(m[k], input, entries.len() as int));
        }
    }
}

proof fn pin_marks_miss_none(input: PassInput, i: int)
    requires
        input.judging(),
        distinct_entries(input.entries@),
        input.pinned_songs().len() <= usize::MAX,
        0 <= i < input.entries@.len(),
        input.entries@[i].pinned != is_pinned(input, input.entries@[i].id@),
    ensures
        is_flipped(marks(input), input, i),
{
    let songs = input.pinned_songs();
    let entries = input.entries@;
    let at = judged(songs);
    let n = entries.len() as int;
    let p = marks_at(songs, entries, at);
    let d = demotions(input, n);
    let m = marks(input);
    assert(m == p + d);
    if entries[i].pinned {
        demotions_miss_none(input, n, i);
        let k = choose|k: int| 0 <= k < d.len() && flips(#[trigger] d[k], input, i);
        assert(m[p.len() + k] == d[k]);
    } else {
        let id = entries[i].id@;
        judged_are_the_pinned(songs);
        promotions_are_right(songs, entries, at);
        distinct_entries_find_themselves(entries, i);
        assert(lists(songs, id));
        let j = choose|j: int| 0 <= j < at.len() && songs[(#[trigger] at[j]) as int].id@ == id;
        let k = choose|k: int|
            0 <= k < p.len() && promotes(#[trigger] p[k], songs[at[j] as int], entries);
        assert(m[k] == p[k]);
    }
}

proof fn pin_marks_come_once(input: PassInput)
    requires
        input.judging(),
        distinct_entries(input.entries@),
        input.pinned_songs().len() <= usize::MAX,
    ensures
        flag_once(marks(input)),
{
    let songs = input.pinned_songs();
    let at = judged(songs);
    let p = marks_at(songs, input.entries@, at);
    let d = demotions(input, input.entries@.len() as int);
    let m = marks(input);
    judged_are_the_pinned(songs);
    promotions_are_right(songs, input.entries@, at);
    demotions_demote_once(input, input.entries@.len() as int);
    pin_marks_flip(input);
    assert(m == p + d);
    assert forall|a: int, b: int|
        0 <= a < b < m.len() && (#[trigger] m[a]) is SetPinned && (
        #[trigger] m[b]) is SetPinned implies m[a]->SetPinned_id@ != m[b]->SetPinned_id@ by {
        if b < p.len() {
            assert(m[a] == p[a] && m[b] == p[b]);
        } else if a >= p.len() {
            assert(m[a] == d[a - p.len()] && m[b] == d[b - p.len()]);
        } else {
            let i = choose|i: int|
                0 <= i < input.entries@.len() && #[trigger] flips(m[a], input, i);
            let j = choose|j: int|
                0 <= j < input.entries@.len() && #[trigger] flips(m[b], input, j);
            assert(is_pinned(input, input.entries@[i].id@));
            assert(!is_pinned(input, input.entries@[j].id@));
        }
    }
}

/// Pin flags mirror the pin set: a pass that judges sets a flag exactly where the entry's
/// differs from the pin set, to what the pin set says, and once.
pub proof fn pin_flags_mirror_the_pin_set(input: PassInput)
    requires
        input.judging(),
        distinct_entries(input.entries@),
        // More songs than a machine can list have no positions.
        input.pinned_songs().len() <= usize::MAX,
    ensures
        forall|k: int|
            0 <= k < plan_of(input).len() && (#[trigger] plan_of(input)[k]) is SetPinned
                ==> flips_an_entry(plan_of(input)[k], input),
        forall|i: int|
            0 <= i < input.entries@.len() && (#[trigger] input.entries@[i]).pinned != is_pinned(
                input,
                input.entries@[i].id@,
            ) ==> is_flipped(plan_of(input), input, i),
        flag_once(plan_of(input)),
{
    pin_marks_flip(input);
    pin_marks_come_once(input);
    marks_stand_together(input);
    let plan = plan_of(input);
    let m = marks(input);
    let n = housekeeping(input).len() as int;
    assert forall|k: int| 0 <= k < plan.len() && (#[trigger] plan[k]) is SetPinned implies plan[k]
        == m[k - n] && n <= k < n + m.len() && flips_an_entry(plan[k], input) by {
        assert(phase(plan[k]) == 3);
        assert(m[k - n] is SetPinned);
    }
    assert forall|i: int|
        0 <= i < input.entries@.len() && (#[trigger] input.entries@[i]).pinned != is_pinned(
            input,
            input.entries@[i].id@,
        ) implies is_flipped(plan, input, i) by {
        pin_marks_miss_none(input, i);
        let k = choose|k: int| 0 <= k < m.len() && flips(#[trigger] m[k], input, i);
        assert(flips(plan[n + k], input, i));
    }
    assert forall|a: int, b: int|
        0 <= a < b < plan.len() && (#[trigger] plan[a]) is SetPinned && (
        #[trigger] plan[b]) is SetPinned implies plan[a]->SetPinned_id@
        != plan[b]->SetPinned_id@ by {
        assert(plan[a] == m[a - n] && plan[b] == m[b - n]);
    }
}

proof fn marks_come_from_verdicts(
    songs: Seq<Song>,
    entries: Seq<IndexEntry>,
    at: Seq<usize>,
    a: StoreAction,
)
    ensures
        marks_at(songs, entries, at).contains(a) <==> exists|j: int|
            0 <= j < at.len() && (entry_with(
                entries,
                songs[(#[trigger] at[j]) as int].id@,
            ) matches Some(e) && marks_on(e, songs[at[j] as int]).contains(a)),
    decreases at.len(),
{
    if at.len() > 0 {
        let n = at.len() - 1;
        let rest = at.drop_last();
        marks_come_from_verdicts(songs, entries, rest, a);
        let s = songs[at[n] as int];
        let was = marks_at(songs, entries, rest);
        let more = match entry_with(entries, s.id@) {
            Some(e) => marks_on(e, s),
            None => Seq::empty(),
        };
        let m = marks_at(songs, entries, at);
        assert(m == was + more);
        if m.contains(a) {
            let k = choose|k: int| 0 <= k < m.len() && m[k] == a;
            if k < was.len() {
                assert(was[k] == a);
                let j = choose|j: int|
                    0 <= j < rest.len() && (entry_with(
                        entries,
                        songs[(#[trigger] rest[j]) as int].id@,
                    ) matches Some(e) && marks_on(e, songs[rest[j] as int]).contains(a));
                assert(at[j] == rest[j]);
            } else {
                assert(more[k - was.len()] == a);
                assert(more.contains(a));
                assert(at[n] == at.last());
            }
        }
        if exists|j: int|
            0 <= j < at.len() && (entry_with(
                entries,
                songs[(#[trigger] at[j]) as int].id@,
            ) matches Some(e) && marks_on(e, songs[at[j] as int]).contains(a)) {
            let j = choose|j: int|
                0 <= j < at.len() && (entry_with(
                    entries,
                    songs[(#[trigger] at[j]) as int].id@,
                ) matches Some(e) && marks_on(e, songs[at[j] as int]).contains(a));
            if j < n {
                assert(rest[j] == at[j]);
                assert(was.contains(a));
                let k = choose|k: int| 0 <= k < was.len() && was[k] == a;
                assert(m[k] == a);
            } else {
                let k = choose|k: int| 0 <= k < more.len() && more[k] == a;
                assert(m[was.len() + k] == a);
            }
        }
    }
}

/// The first song of a list with an id is the one at the least place.
pub proof fn the_first_song_speaks(songs: Seq<Song>, id: Seq<char>, p: int)
    requires
        0 <= p < songs.len(),
        songs[p].id@ == id,
        forall|k: int| 0 <= k < p ==> (#[trigger] songs[k]).id@ != id,
    ensures
        song_with(songs, id) == Some(songs[p]),
    decreases songs.len(),
{
    if p > 0 {
        let rest = songs.drop_first();
        assert(songs[0].id@ != id);
        assert forall|k: int| 0 <= k < p - 1 implies (#[trigger] rest[k]).id@ != id by {
            assert(rest[k] == songs[k + 1]);
        }
        the_first_song_speaks(rest, id, p - 1);
    }
}

/// Stale flags follow the verdicts: a pass that judges marks an entry as stale exactly where it
/// is pinned, its original changed and it was not marked, takes the mark away exactly where the
/// original is confirmed and it was, and touches no other. The first of the pinned songs with
/// its id is what an entry is held against.
pub proof fn stale_flags_follow_the_verdicts(input: PassInput, i: int, p: int)
    requires
        input.judging(),
        distinct_entries(input.entries@),
        // More songs than a machine can list have no positions.
        input.pinned_songs().len() <= usize::MAX,
        0 <= i < input.entries@.len(),
        storable(input.entries@[i].id@),
        0 <= p < input.pinned_songs().len(),
        input.pinned_songs()[p].id@ == input.entries@[i].id@,
        forall|k: int|
            0 <= k < p ==> (#[trigger] input.pinned_songs()[k]).id@ != input.entries@[i].id@,
    ensures
        ({
            let e = input.entries@[i];
            let v = verdict(e, input.pinned_songs()[p]);
            &&& plan_of(input).contains(StoreAction::SetStale { id: e.id, stale: true }) <==> v
                == Verdict::Differ && !e.stale
            &&& plan_of(input).contains(StoreAction::SetStale { id: e.id, stale: false }) <==> v
                == Verdict::Equal && e.stale
            &&& wants_replacement(input, e) <==> e.stale || v == Verdict::Differ
        }),
{
    let songs = input.pinned_songs();
    let entries = input.entries@;
    let e = entries[i];
    let at = judged(songs);
    distinct_entries_find_themselves(entries, i);
    the_first_song_speaks(songs, e.id@, p);
    judged_are_the_pinned(songs);
    judged_come_first(songs);
    assert(lists(songs, e.id@));
    let j = choose|j: int| 0 <= j < at.len() && songs[(#[trigger] at[j]) as int].id@ == e.id@;
    assert(at[j] == p) by {
        let q = at[j] as int;
        if q < p {
            assert(songs[q].id@ != e.id@);
        } else if p < q {
            assert(songs.take(q)[p].id@ == e.id@);
        }
    }
    stale_marks_are_of_the_entry(input, i, p, j, true);
    stale_marks_are_of_the_entry(input, i, p, j, false);
    marks_bring_flags_in_line(e, songs[p], 0);
}

/// No judged song was named before.
proof fn judged_come_first(songs: Seq<Song>)
    requires
        songs.len() <= usize::MAX,
    ensures
        forall|j: int|
            0 <= j < judged(songs).len() ==> !lists(
                songs.take((#[trigger] judged(songs)[j]) as int),
                songs[judged(songs)[j] as int].id@,
            ),
{
    let none = Set::<Seq<char>>::empty();
    let own = own_tracks(songs);
    let at = judged(songs);
    picks_are_picked(songs, none, songs.len() as int);
    id_order_is_total(songs);
    sorting_keeps_elements(own, id_order(songs));
    assert forall|j: int| 0 <= j < at.len() implies !lists(
        songs.take((#[trigger] at[j]) as int),
        songs[at[j] as int].id@,
    ) by {
        assert(at.contains(at[j]));
        assert(own.contains(at[j]));
        let k = choose|k: int| 0 <= k < own.len() && own[k] == at[j];
        assert(picked(songs, none, own[k] as int));
    }
}

proof fn stale_marks_are_of_the_entry(input: PassInput, i: int, p: int, j: int, stale: bool)
    requires
        input.judging(),
        distinct_entries(input.entries@),
        0 <= i < input.entries@.len(),
        0 <= j < judged(input.pinned_songs()).len(),
        judged(input.pinned_songs())[j] == p,
        input.pinned_songs()[p].id@ == input.entries@[i].id@,
        forall|a: int, b: int|
            0 <= a < b < judged(input.pinned_songs()).len() ==> input.pinned_songs()[(
            #[trigger] judged(input.pinned_songs())[a]) as int].id@ != input.pinned_songs()[(
            #[trigger] judged(input.pinned_songs())[b]) as int].id@,
    ensures
        ({
            let a = StoreAction::SetStale { id: input.entries@[i].id, stale };
            plan_of(input).contains(a) <==> marks_on(
                input.entries@[i],
                input.pinned_songs()[p],
            ).contains(a)
        }),
{
    let songs = input.pinned_songs();
    let entries = input.entries@;
    let e = entries[i];
    let at = judged(songs);
    let a = StoreAction::SetStale { id: e.id, stale };
    let n = entries.len() as int;
    let m = marks(input);
    let made = marks_at(songs, entries, at);
    let gone = demotions(input, n);
    marks_stand_together(input);
    marks_come_from_verdicts(songs, entries, at, a);
    distinct_entries_find_themselves(entries, i);
    demotions_demote(input, n);
    assert(m == made + gone);
    let h = housekeeping(input).len() as int;
    let plan = plan_of(input);
    if plan.contains(a) {
        let k = choose|k: int| 0 <= k < plan.len() && plan[k] == a;
        assert(phase(plan[k]) == 3);
        assert(m[k - h] == a);
        if k - h >= made.len() {
            assert(gone[k - h - made.len()] == a);
            assert(demotes_an_entry(gone[k - h - made.len()], input, n));
        } else {
            assert(made[k - h] == a);
        }
        assert(made.contains(a));
        let q = choose|q: int|
            0 <= q < at.len() && (entry_with(
                entries,
                songs[(#[trigger] at[q]) as int].id@,
            ) matches Some(x) && marks_on(x, songs[at[q] as int]).contains(a));
        let x = entry_with(entries, songs[at[q] as int].id@)->0;
        cached_means_listed(entries, songs[at[q] as int].id@);
        let c = marks_on(x, songs[at[q] as int]);
        let r = choose|r: int| 0 <= r < c.len() && c[r] == a;
        marks_bring_flags_in_line(x, songs[at[q] as int], r);
        assert(x.id@ == e.id@);
        assert(q == j);
    }
    if marks_on(e, songs[p]).contains(a) {
        assert(entry_with(entries, songs[at[j] as int].id@) == Some(e));
        assert(made.contains(a));
        let k = choose|k: int| 0 <= k < made.len() && made[k] == a;
        assert(m[k] == a);
        assert(plan[h + k] == a);
    }
}

} // verus!
