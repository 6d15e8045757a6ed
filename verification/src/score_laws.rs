//! What the numbers that groups are ranked on count.
use crate::budget::capped;
use crate::entries::{cached, cached_means_listed, entry_with, IndexEntry};
use crate::frontier::{holds_any, rank_key};
use crate::model::{played_age, Song};
use crate::names::storable;
use crate::pins::{cold, emphasis, unplayed, PinGroup};
use crate::plan::{due, not_due, PassInput};
use crate::score::{
    asked_bytes, cold_share, cold_share_is_a_share, cold_weight, decile_of, freshest, lists,
    never_among, own_tracks, picked, picks_are_picked, plays_over, size_in, size_table, sized,
    stalest, track_size, weight, GroupScore, SizeEntry,
};
use vstd::prelude::*;

verus! {

/// A song costs what the server reports, where it does; else what its entry holds on disk; else
/// nothing.
pub proof fn the_server_knows_best(s: Song, entries: Seq<IndexEntry>)
    ensures
        s.size is Some ==> track_size(s, entries) == s.size->0,
        s.size is None && entry_with(entries, s.id@) is Some ==> track_size(s, entries)
            == entry_with(entries, s.id@)->0.size,
        s.size is None && (forall|i: int|
            0 <= i < entries.len() ==> (#[trigger] entries[i]).id@ != s.id@) ==> track_size(
            s,
            entries,
        ) == 0,
{
    cached_means_listed(entries, s.id@);
}

proof fn tables_end_with(sizes: Seq<SizeEntry>, x: SizeEntry, id: Seq<char>)
    ensures
        sized(sizes, id) ==> size_in(sizes.push(x), id) == size_in(sizes, id),
        !sized(sizes, id) && x.id@ == id ==> size_in(sizes.push(x), id) == x.bytes,
        !sized(sizes, id) && x.id@ != id ==> size_in(sizes.push(x), id) == 0,
        !sized(sizes, id) ==> size_in(sizes, id) == 0,
    decreases sizes.len(),
{
    let more = sizes.push(x);
    if sizes.len() > 0 {
        let rest = sizes.drop_first();
        tables_end_with(rest, x, id);
        assert(more.drop_first() =~= rest.push(x));
        if sized(sizes, id) && sizes[0].id@ != id {
            let k = choose|k: int| 0 <= k < sizes.len() && (#[trigger] sizes[k]).id@ == id;
            assert(rest[k - 1].id@ == id);
        }
        if sized(rest, id) {
            let k = choose|k: int| 0 <= k < rest.len() && (#[trigger] rest[k]).id@ == id;
            assert(sizes[k + 1].id@ == id);
        }
    } else {
        assert(more.drop_first() =~= Seq::<SizeEntry>::empty());
        assert(size_in(more.drop_first(), id) == 0);
    }
}

proof fn tables_list_the_songs(songs: Seq<Song>, entries: Seq<IndexEntry>, id: Seq<char>)
    ensures
        sized(size_table(songs, entries), id) <==> storable(id) && lists(songs, id),
    decreases songs.len(),
{
    if songs.len() > 0 {
        let rest = songs.drop_last();
        let t = size_table(rest, entries);
        let now = size_table(songs, entries);
        tables_list_the_songs(rest, entries, id);
        if lists(rest, id) {
            let k = choose|k: int| 0 <= k < rest.len() && (#[trigger] rest[k]).id@ == id;
            assert(songs[k].id@ == id);
        }
        if lists(songs, id) && !lists(rest, id) {
            let k = choose|k: int| 0 <= k < songs.len() && (#[trigger] songs[k]).id@ == id;
            if k < rest.len() {
                assert(rest[k].id@ == id);
            }
        }
        if sized(t, id) {
            let k = choose|k: int| 0 <= k < t.len() && (#[trigger] t[k]).id@ == id;
            assert(now[k].id@ == id);
        }
        if sized(now, id) && !sized(t, id) {
            let k = choose|k: int| 0 <= k < now.len() && (#[trigger] now[k]).id@ == id;
            if k < t.len() {
                assert(t[k].id@ == id);
            }
            assert(songs[songs.len() - 1].id@ == id);
        }
        if songs.last().id@ == id && storable(id) && !sized(t, id) {
            assert(now[t.len() as int].id@ == id);
        }
        if songs.last().id@ == id {
            assert(songs[songs.len() - 1].id@ == id);
        }
    }
}

/// A storable track costs what the first song of the pin set with its id costs, whatever group
/// that is in, and an id that no song has costs nothing.
pub proof fn the_first_song_sets_the_cost(songs: Seq<Song>, entries: Seq<IndexEntry>, p: int)
    requires
        0 <= p < songs.len(),
        storable(songs[p].id@),
        forall|k: int| 0 <= k < p ==> (#[trigger] songs[k]).id@ != songs[p].id@,
    ensures
        size_in(size_table(songs, entries), songs[p].id@) == track_size(songs[p], entries),
    decreases songs.len(),
{
    let rest = songs.drop_last();
    let t = size_table(rest, entries);
    let id = songs[p].id@;
    tables_list_the_songs(rest, entries, id);
    let x = SizeEntry { id: songs.last().id.0, bytes: track_size(songs.last(), entries) };
    tables_end_with(t, x, id);
    if p < rest.len() {
        assert forall|k: int| 0 <= k < p implies (#[trigger] rest[k]).id@ != rest[p].id@ by {
            assert(rest[k] == songs[k]);
        }
        the_first_song_sets_the_cost(rest, entries, p);
        assert(rest[p].id@ == id);
        assert(lists(rest, id));
    } else {
        if lists(rest, id) {
            let k = choose|k: int| 0 <= k < rest.len() && (#[trigger] rest[k]).id@ == id;
            assert(songs[k].id@ == id);
        }
    }
}

/// What weighs is added up, track by track.
pub proof fn weights_add_up(
    songs: Seq<Song>,
    sizes: Seq<SizeEntry>,
    a: Seq<usize>,
    b: Seq<usize>,
    i: usize,
)
    ensures
        weight(songs, sizes, Seq::empty()) == 0,
        weight(songs, sizes, seq![i]) == size_in(sizes, songs[i as int].id@),
        weight(songs, sizes, a + b) == weight(songs, sizes, a) + weight(songs, sizes, b),
    decreases b.len(),
{
    assert(seq![i].drop_last() =~= Seq::<usize>::empty());
    assert(weight(songs, sizes, Seq::empty()) == 0);
    if b.len() > 0 {
        weights_add_up(songs, sizes, a, b.drop_last(), i);
        assert((a + b).drop_last() =~= a + b.drop_last());
    } else {
        assert(a + b =~= a);
    }
}

/// Plays are added up, track by track; where none were counted there are none.
pub proof fn plays_add_up(songs: Seq<Song>, a: Seq<usize>, b: Seq<usize>, i: usize)
    ensures
        plays_over(songs, Seq::empty()) == 0,
        songs[i as int].play_count is Some ==> plays_over(songs, seq![i])
            == songs[i as int].play_count->0,
        songs[i as int].play_count is None ==> plays_over(songs, seq![i]) == 0,
        plays_over(songs, a + b) == plays_over(songs, a) + plays_over(songs, b),
    decreases b.len(),
{
    assert(seq![i].drop_last() =~= Seq::<usize>::empty());
    assert(plays_over(songs, Seq::empty()) == 0);
    if b.len() > 0 {
        plays_add_up(songs, a, b.drop_last(), i);
        assert((a + b).drop_last() =~= a + b.drop_last());
    } else {
        assert(a + b =~= a);
    }
}

#[verifier::spinoff_prover]
#[verifier::rlimit(50)]
proof fn the_freshest_is_the_least(songs: Seq<Song>, at: Seq<usize>, now_unix: u64)
    ensures
        freshest(songs, at, now_unix) is None <==> forall|k: int|
            0 <= k < at.len() ==> played_age(songs[(#[trigger] at[k]) as int], now_unix) is None,
        forall|k: int|
            0 <= k < at.len() && played_age(songs[(#[trigger] at[k]) as int], now_unix) is Some
                ==> freshest(songs, at, now_unix)->0 <= played_age(
                songs[at[k] as int],
                now_unix,
            )->0,
        freshest(songs, at, now_unix) is Some ==> exists|k: int|
            0 <= k < at.len() && played_age(songs[(#[trigger] at[k]) as int], now_unix) == freshest(
                songs,
                at,
                now_unix,
            ),
    decreases at.len(),
{
    if at.len() > 0 {
        let rest = at.drop_last();
        let n = at.len() - 1;
        the_freshest_is_the_least(songs, rest, now_unix);
        let age = played_age(songs[at[n] as int], now_unix);
        let was = freshest(songs, rest, now_unix);
        let now = freshest(songs, at, now_unix);
        if was is Some {
            let k = choose|k: int|
                0 <= k < rest.len() && played_age(songs[(#[trigger] rest[k]) as int], now_unix)
                    == was;
            assert(rest[k] == at[k]);
            assert(played_age(songs[at[k] as int], now_unix) == was);
        }
        assert forall|k: int|
            0 <= k < at.len() && played_age(
                songs[(#[trigger] at[k]) as int],
                now_unix,
            ) is Some implies now is Some && now->0 <= played_age(
            songs[at[k] as int],
            now_unix,
        )->0 by {
            if k < n {
                assert(rest[k] == at[k]);
            }
        }
    }
}

#[verifier::spinoff_prover]
#[verifier::rlimit(50)]
proof fn the_stalest_is_the_most(songs: Seq<Song>, at: Seq<usize>, now_unix: u64)
    ensures
        stalest(songs, at, now_unix) is None <==> forall|k: int|
            0 <= k < at.len() ==> played_age(songs[(#[trigger] at[k]) as int], now_unix) is None,
        forall|k: int|
            0 <= k < at.len() && played_age(songs[(#[trigger] at[k]) as int], now_unix) is Some
                ==> stalest(songs, at, now_unix)->0 >= played_age(
                songs[at[k] as int],
                now_unix,
            )->0,
        stalest(songs, at, now_unix) is Some ==> exists|k: int|
            0 <= k < at.len() && played_age(songs[(#[trigger] at[k]) as int], now_unix) == stalest(
                songs,
                at,
                now_unix,
            ),
    decreases at.len(),
{
    if at.len() > 0 {
        let rest = at.drop_last();
        let n = at.len() - 1;
        the_stalest_is_the_most(songs, rest, now_unix);
        let age = played_age(songs[at[n] as int], now_unix);
        let was = stalest(songs, rest, now_unix);
        let now = stalest(songs, at, now_unix);
        if was is Some {
            let k = choose|k: int|
                0 <= k < rest.len() && played_age(songs[(#[trigger] rest[k]) as int], now_unix)
                    == was;
            assert(rest[k] == at[k]);
            assert(played_age(songs[at[k] as int], now_unix) == was);
        }
        assert forall|k: int|
            0 <= k < at.len() && played_age(
                songs[(#[trigger] at[k]) as int],
                now_unix,
            ) is Some implies now is Some && now->0 >= played_age(
            songs[at[k] as int],
            now_unix,
        )->0 by {
            if k < n {
                assert(rest[k] == at[k]);
            }
        }
    }
}

/// The freshest and the stalest play are plays of these tracks, and no other play is fresher or
/// staler. There are none exactly where no track has a readable play.
pub proof fn plays_lie_between(songs: Seq<Song>, at: Seq<usize>, now_unix: u64)
    ensures
        freshest(songs, at, now_unix) is None <==> forall|k: int|
            0 <= k < at.len() ==> played_age(songs[(#[trigger] at[k]) as int], now_unix) is None,
        stalest(songs, at, now_unix) is None <==> forall|k: int|
            0 <= k < at.len() ==> played_age(songs[(#[trigger] at[k]) as int], now_unix) is None,
        forall|k: int|
            0 <= k < at.len() && played_age(songs[(#[trigger] at[k]) as int], now_unix) is Some
                ==> freshest(songs, at, now_unix)->0 <= played_age(
                songs[at[k] as int],
                now_unix,
            )->0 <= stalest(songs, at, now_unix)->0,
        freshest(songs, at, now_unix) is Some ==> exists|k: int|
            0 <= k < at.len() && played_age(songs[(#[trigger] at[k]) as int], now_unix) == freshest(
                songs,
                at,
                now_unix,
            ),
        stalest(songs, at, now_unix) is Some ==> exists|k: int|
            0 <= k < at.len() && played_age(songs[(#[trigger] at[k]) as int], now_unix) == stalest(
                songs,
                at,
                now_unix,
            ),
{
    the_freshest_is_the_least(songs, at, now_unix);
    the_stalest_is_the_most(songs, at, now_unix);
}

/// A share in tenths is rounded down from whole percents, and of nothing it is nothing.
pub proof fn shares_round_down(part: int, whole: int)
    requires
        0 <= part <= whole,
    ensures
        ({
            let d = decile_of(part, whole);
            &&& 0 <= d <= 10
            &&& whole == 0 ==> d == 0
            &&& whole > 0 ==> (10 * d) * whole <= part * 100
            &&& whole > 0 ==> part * 100 < (10 * d + 10) * whole
            &&& part == whole && whole > 0 ==> d == 10
        }),
{
    if whole > 0 {
        let pct = part * 100 / whole;
        let d = pct / 10;
        assert(pct * whole <= part * 100 < (pct + 1) * whole) by (nonlinear_arith)
            requires
                whole > 0,
                0 <= part,
                pct == part * 100 / whole,
        ;
        assert(0 <= pct <= 100) by (nonlinear_arith)
            requires
                whole > 0,
                0 <= part <= whole,
                pct * whole <= part * 100 < (pct + 1) * whole,
        ;
        assert(10 * d <= pct < 10 * d + 10);
        assert((10 * d) * whole <= pct * whole) by (nonlinear_arith)
            requires
                10 * d <= pct,
                whole > 0,
        ;
        assert((pct + 1) * whole <= (10 * d + 10) * whole) by (nonlinear_arith)
            requires
                pct + 1 <= 10 * d + 10,
                whole > 0,
        ;
        if part == whole {
            assert(pct == 100) by (nonlinear_arith)
                requires
                    whole > 0,
                    part == whole,
                    pct == part * 100 / whole,
            ;
        }
    }
}

/// A group's own tracks are its storable songs, each once: the first with its id, in order.
pub proof fn own_tracks_are_the_distinct_storable(songs: Seq<Song>, i: int)
    requires
        0 <= i < songs.len() <= usize::MAX,
    ensures
        own_tracks(songs).contains(i as usize) <==> storable(songs[i].id@) && forall|k: int|
            0 <= k < i ==> (#[trigger] songs[k]).id@ != songs[i].id@,
        forall|a: int, b: int|
            0 <= a < b < own_tracks(songs).len() ==> (#[trigger] own_tracks(songs)[a]) < (
            #[trigger] own_tracks(songs)[b]),
{
    let none = Set::<Seq<char>>::empty();
    let own = own_tracks(songs);
    picks_are_picked(songs, none, songs.len() as int);
    let front = songs.take(i);
    if own.contains(i as usize) {
        let k = choose|k: int| 0 <= k < own.len() && own[k] == i as usize;
        assert(picked(songs, none, own[k] as int));
        assert forall|k: int| 0 <= k < i implies (#[trigger] songs[k]).id@ != songs[i].id@ by {
            if songs[k].id@ == songs[i].id@ {
                assert(front[k].id@ == songs[i].id@);
            }
        }
    }
    if storable(songs[i].id@) && forall|k: int|
        0 <= k < i ==> (#[trigger] songs[k]).id@ != songs[i].id@ {
        if lists(front, songs[i].id@) {
            let k = choose|k: int| 0 <= k < front.len() && (#[trigger] front[k]).id@ == songs[i].id@;
            assert(songs[k].id@ == songs[i].id@);
        }
        assert(picked(songs, none, i));
    }
}

/// The share a group is ranked by is that of its neglected own tracks in all its own, by bytes,
/// in tenths rounded down from whole percents.
pub proof fn groups_rank_by_neglected_bytes(
    songs: Seq<Song>,
    sizes: Seq<SizeEntry>,
    now_unix: u64,
)
    ensures
        ({
            let own = own_tracks(songs);
            let all = capped(weight(songs, sizes, own));
            let unheard = capped(
                weight(songs, sizes, own.filter(|i: usize| cold(songs[i as int], now_unix))),
            );
            let d = cold_share(songs, sizes, now_unix);
            &&& all == 0 ==> d == 0
            &&& all > 0 ==> (10 * d) * all <= unheard * 100 < (10 * d + 10) * all
            &&& asked_bytes(songs, sizes) == all
            &&& cold_weight(songs, sizes, now_unix) == unheard
        }),
{
    cold_share_is_a_share(songs, sizes, now_unix);
    shares_round_down(cold_weight(songs, sizes, now_unix), asked_bytes(songs, sizes));
}

/// What a score counts: the own tracks, those of them that are neglected, those never played at
/// all, their bytes and plays, and the span of their plays.
pub proof fn scores_count_own_tracks(
    g: GroupScore,
    songs: Seq<Song>,
    sizes: Seq<SizeEntry>,
    now_unix: u64,
)
    requires
        g.is_of(songs, sizes, now_unix),
    ensures
        ({
            let own = own_tracks(songs);
            &&& g.tracks == own.len()
            &&& g.cold_tracks == own.filter(|i: usize| cold(songs[i as int], now_unix)).len()
            &&& g.never_played == own.filter(
                |i: usize|
                    played_age(songs[i as int], now_unix) is None && (songs[i as int].play_count is None
                        || songs[i as int].play_count->0 == 0),
            ).len()
            &&& weight(songs, sizes, own) <= u64::MAX ==> g.bytes == weight(songs, sizes, own)
            &&& plays_over(songs, own) <= u32::MAX ==> g.plays == plays_over(songs, own)
            &&& g.last_played_days is None <==> freshest(songs, own, now_unix) is None
            &&& g.last_played_days is Some ==> g.last_played_days->0 == freshest(
                songs,
                own,
                now_unix,
            )->0
            &&& g.oldest_played_days is None <==> stalest(songs, own, now_unix) is None
            &&& g.oldest_played_days is Some ==> g.oldest_played_days->0 == stalest(
                songs,
                own,
                now_unix,
            )->0
        }),
{
    let own = own_tracks(songs);
    let f = |i: usize|
        played_age(songs[i as int], now_unix) is None && unplayed(songs[i as int]);
    let h = |i: usize|
        played_age(songs[i as int], now_unix) is None && (songs[i as int].play_count is None
            || songs[i as int].play_count->0 == 0);
    assert(f =~= h);
    assert(never_among(songs, own, now_unix) == own.filter(h));
}

/// What a group is ranked by: its gesture's class, its neglected share, whether any storable
/// track of it is on disk, the emphasis its gesture has where it has neglected bytes, and its
/// place.
pub proof fn keys_are_as_the_groups_are(
    groups: Seq<PinGroup>,
    entries: Seq<IndexEntry>,
    sizes: Seq<SizeEntry>,
    now_unix: u64,
    i: int,
)
    ensures
        ({
            let k = rank_key(groups, entries, sizes, now_unix, i);
            let songs = groups[i].songs@;
            &&& k.class == (if groups[i].tier is Artist {
                1int
            } else {
                0
            })
            &&& k.decile == cold_share(songs, sizes, now_unix)
            &&& k.held <==> exists|j: int, e: int|
                0 <= j < songs.len() && 0 <= e < entries.len() && storable(
                    (#[trigger] songs[j]).id@,
                ) && (#[trigger] entries[e]).id@ == songs[j].id@
            &&& k.emphasis == emphasis(
                groups[i].tier,
                cold_weight(songs, sizes, now_unix) > 0,
            )
            &&& k.position == i
        }),
{
    let songs = groups[i].songs@;
    if holds_any(songs, entries) {
        let j = choose|j: int|
            0 <= j < songs.len() && storable((#[trigger] songs[j]).id@) && cached(
                entries,
                songs[j].id@,
            );
        cached_means_listed(entries, songs[j].id@);
        let e = choose|e: int| 0 <= e < entries.len() && (#[trigger] entries[e]).id@ == songs[j].id@;
        assert(entries[e].id@ == songs[j].id@);
    }
    if exists|j: int, e: int|
        0 <= j < songs.len() && 0 <= e < entries.len() && storable((#[trigger] songs[j]).id@) && (
        #[trigger] entries[e]).id@ == songs[j].id@ {
        let (j, e) = choose|j: int, e: int|
            0 <= j < songs.len() && 0 <= e < entries.len() && storable((#[trigger] songs[j]).id@) && (
            #[trigger] entries[e]).id@ == songs[j].id@;
        cached_means_listed(entries, songs[j].id@);
        assert(cached(entries, songs[j].id@));
    }
}

/// What a group above the line still has to fetch: its storable tracks, each once, that it is the
/// first above the line to list and that are not on disk.
pub proof fn due_tracks_are_the_missing_ones(input: PassInput, slot: int, i: int)
    requires
        input.judging(),
        0 <= slot < input.line().groups.len(),
        0 <= i < input.line().groups[slot].songs@.len(),
    ensures
        ({
            let songs = input.line().groups[slot].songs@;
            let id = songs[i].id@;
            due(input, slot).contains(i as usize) <==> {
                &&& storable(id)
                &&& forall|k: int| 0 <= k < i ==> (#[trigger] songs[k]).id@ != id
                &&& forall|e: int|
                    0 <= e < input.entries@.len() ==> (#[trigger] input.entries@[e]).id@ != id
                &&& input.line().standing(id).0 is Resident
                &&& input.line().standing(id).1 == slot
            }
        }),
{
    let line = input.line();
    let g = line.groups[slot];
    let songs = g.songs@;
    assert(songs.len() == g.songs.len());
    let id = songs[i].id@;
    let skip = not_due(line.walk.claims, input.entries@, slot);
    picks_are_picked(songs, skip, songs.len() as int);
    cached_means_listed(input.entries@, id);
    let at = due(input, slot);
    let front = songs.take(i);
    assert(picked(songs, skip, i) <==> {
        &&& storable(id)
        &&& forall|k: int| 0 <= k < i ==> (#[trigger] songs[k]).id@ != id
        &&& !skip.contains(id)
    }) by {
        if lists(front, id) {
            let k = choose|k: int| 0 <= k < front.len() && (#[trigger] front[k]).id@ == id;
            assert(songs[k].id@ == id);
        } else {
            assert forall|k: int| 0 <= k < i implies (#[trigger] songs[k]).id@ != id by {
                if songs[k].id@ == id {
                    assert(front[k].id@ == id);
                }
            }
        }
    }
    if at.contains(i as usize) {
        let k = choose|k: int| 0 <= k < at.len() && at[k] == i as usize;
        assert(picked(songs, skip, at[k] as int));
    }
}

} // verus!
