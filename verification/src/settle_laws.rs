//! A store that is as it should be is left alone.
use crate::budget::eviction_floor;
use crate::entries::{cached, cached_means_listed, entry_with, IndexEntry};
use crate::frontier::{claim_slot, Claim};
use crate::model::Song;
use crate::names::storable;
use crate::plan::{
    after_backfill, after_stale, bulk_of, bulk_start, demotions, drifted, due, flushes, id_order,
    is_pinned, judged, marks, marks_at, marks_on, not_due, pin_song, plan_of, song_with,
    suspect_fetches, wants_replacement, window_fetches, Fetch, PassInput, StoreAction,
};
use crate::planner::id_order_is_total;
use crate::score::{lists, own_tracks, picked, picks, picks_are_picked};
use crate::sorting::sorting_keeps_elements;
use vstd::prelude::*;

verus! {

/// An entry that needs nothing: neither suspect nor in need of a replacement, its recency written
/// out, and where the pins are known its flag as they say.
pub open spec fn entry_is_settled(input: PassInput, e: IndexEntry) -> bool {
    &&& !e.suspect
    &&& !e.recency_dirty
    &&& !wants_replacement(input, e)
    &&& input.judging() ==> e.pinned == is_pinned(input, e.id@)
}

/// A store that is as it should be: nothing in its directory but valid pairs, entries that need
/// nothing, everything on disk that the queue or the pins ask for, and no more bytes than it may
/// keep.
pub open spec fn settled(input: PassInput) -> bool {
    &&& input.stale_tmps@.len() == 0
    &&& input.orphan_audio@.len() == 0
    &&& input.orphan_sidecars@.len() == 0
    &&& forall|k: int|
        0 <= k < input.entries@.len() ==> entry_is_settled(input, #[trigger] input.entries@[k])
    &&& forall|k: int|
        0 <= k < input.window@.len() ==> cached(input.entries@, (#[trigger] input.window@[k])@)
            || !storable(input.window@[k]@)
    &&& input.judging() ==> forall|k: int|
        0 <= k < input.line().walk.claims.len() ==> cached(
            input.entries@,
            (#[trigger] input.line().walk.claims[k]).id@,
        )
    &&& input.total_bytes() <= eviction_floor(
        input.max_bytes as int,
        input.configured_max as int,
        input.avail as int,
    )
}

proof fn settled_entries(input: PassInput, n: int)
    requires
        settled(input),
        0 <= n <= input.entries@.len(),
    ensures
        suspect_fetches(input, n).len() == 0,
        flushes(input, n).len() == 0,
        after_stale(input, n) == bulk_start(input),
        input.judging() ==> demotions(input, n).len() == 0,
    decreases n,
{
    if n > 0 {
        settled_entries(input, n - 1);
        assert(entry_is_settled(input, input.entries@[n - 1]));
    }
}

proof fn settled_window(input: PassInput, n: int)
    requires
        settled(input),
        0 <= n <= input.window@.len(),
    ensures
        window_fetches(input, n).len() == 0,
    decreases n,
{
    if n > 0 {
        settled_window(input, n - 1);
        let id = input.window@[n - 1];
        assert(cached(input.entries@, id@) || !storable(id@));
    } else {
        settled_entries(input, input.entries@.len() as int);
    }
}

proof fn claimed_slots_are_claims(claims: Seq<Claim>, id: Seq<char>)
    requires
        claim_slot(claims, id) is Some,
    ensures
        exists|k: int| 0 <= k < claims.len() && (#[trigger] claims[k]).id@ == id,
    decreases claims.len(),
{
    if claims[0].id@ != id {
        let rest = claims.drop_first();
        claimed_slots_are_claims(rest, id);
        let k = choose|k: int| 0 <= k < rest.len() && (#[trigger] rest[k]).id@ == id;
        assert(claims[k + 1].id@ == id);
    }
}

proof fn nothing_due(input: PassInput, slot: int, n: int)
    requires
        settled(input),
        input.judging(),
        0 <= n <= input.line().groups[slot].songs@.len(),
    ensures
        picks(
            input.line().groups[slot].songs@,
            not_due(input.line().walk.claims, input.entries@, slot),
            n,
        ).len() == 0,
    decreases n,
{
    if n > 0 {
        nothing_due(input, slot, n - 1);
        let songs = input.line().groups[slot].songs@;
        let claims = input.line().walk.claims;
        let id = songs[n - 1].id@;
        if claim_slot(claims, id) is Some {
            claimed_slots_are_claims(claims, id);
            let k = choose|k: int| 0 <= k < claims.len() && (#[trigger] claims[k]).id@ == id;
            assert(cached(input.entries@, input.line().walk.claims[k].id@));
        }
        assert(not_due(claims, input.entries@, slot).contains(id));
    }
}

proof fn settled_groups(input: PassInput, k: int)
    requires
        settled(input),
        input.judging(),
        0 <= k <= input.line().groups.len(),
    ensures
        after_backfill(input, k) == bulk_start(input),
    decreases k,
{
    if k > 0 {
        settled_groups(input, k - 1);
        nothing_due(input, k - 1, input.line().groups[k - 1].songs@.len() as int);
        assert(due(input, k - 1).len() == 0);
    } else {
        settled_entries(input, input.entries@.len() as int);
    }
}

proof fn first_songs_are_found(songs: Seq<Song>, i: int)
    requires
        0 <= i < songs.len(),
        !lists(songs.take(i), songs[i].id@),
    ensures
        song_with(songs, songs[i].id@) == Some(songs[i]),
    decreases i,
{
    let id = songs[i].id@;
    if i > 0 {
        assert(songs.take(i)[0] == songs[0]);
        assert(songs[0].id@ != id);
        let rest = songs.drop_first();
        assert(rest[i - 1] == songs[i]);
        if lists(rest.take(i - 1), id) {
            let k = choose|k: int|
                0 <= k < rest.take(i - 1).len() && (#[trigger] rest.take(i - 1)[k]).id@ == id;
            assert(songs.take(i)[k + 1] == rest.take(i - 1)[k]);
        }
        first_songs_are_found(rest, i - 1);
    }
}

proof fn settled_marks(input: PassInput, at: Seq<usize>)
    requires
        settled(input),
        input.judging(),
        forall|k: int|
            0 <= k < at.len() ==> (#[trigger] at[k]) < input.pinned_songs().len() && picked(
                input.pinned_songs(),
                Set::empty(),
                at[k] as int,
            ),
    ensures
        marks_at(input.pinned_songs(), input.entries@, at).len() == 0,
    decreases at.len(),
{
    if at.len() > 0 {
        settled_marks(input, at.drop_last());
        let songs = input.pinned_songs();
        let i = at[at.len() - 1] as int;
        let s = songs[i];
        assert(picked(songs, Set::empty(), i));
        first_songs_are_found(songs, i);
        assert(pin_song(input, s.id@) == Some(s));
        match entry_with(input.entries@, s.id@) {
            Some(e) => {
                cached_means_listed(input.entries@, s.id@);
                let k = choose|k: int|
                    0 <= k < input.entries@.len() && entry_with(input.entries@, s.id@) == Some(
                        #[trigger] input.entries@[k],
                    ) && input.entries@[k].id@ == s.id@;
                assert(entry_is_settled(input, input.entries@[k]));
                assert(!drifted(input, e.id@));
                assert(lists(songs, s.id@)) by {
                    assert(songs[i].id@ == s.id@);
                }
                assert(marks_on(e, s).len() == 0);
            },
            None => {},
        }
    }
}

/// A store that is as it should be is left alone: a pass over it plans nothing, whatever the
/// mode, the budget or the batch.
pub proof fn settled_stores_are_left_alone(input: PassInput)
    requires
        settled(input),
        // More songs than a machine can list have no positions.
        input.judging() ==> input.pinned_songs().len() <= usize::MAX,
    ensures
        plan_of(input) == Seq::<StoreAction>::empty(),
{
    settled_entries(input, input.entries@.len() as int);
    settled_window(input, input.window@.len() as int);
    if input.judging() {
        settled_groups(input, input.line().groups.len() as int);
        let songs = input.pinned_songs();
        picks_are_picked(songs, Set::empty(), songs.len() as int);
        id_order_is_total(songs);
        sorting_keeps_elements(own_tracks(songs), id_order(songs));
        assert forall|k: int| 0 <= k < judged(songs).len() implies (#[trigger] judged(songs)[k])
            < songs.len() && picked(songs, Set::empty(), judged(songs)[k] as int) by {
            assert(judged(songs).contains(judged(songs)[k]));
            assert(own_tracks(songs).contains(judged(songs)[k]));
        }
        settled_marks(input, judged(songs));
    }
    assert(bulk_of(input) == bulk_start(input));
    assert(bulk_of(input).fetches =~= Seq::<Fetch>::empty());
    assert(marks(input).len() == 0);
    assert(plan_of(input) =~= Seq::<StoreAction>::empty());
}

} // verus!
