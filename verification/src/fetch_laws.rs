//! What a pass fetches, and in what order: nothing that is due is passed over without a cause.
use crate::budget::{capped, STORE_PIN_CEILING_SETBACK};
use crate::entries::{cached, cached_means_listed, entry_with, IndexEntry};
use crate::frontier::line_of;
use crate::model::{Song, SongId};
use crate::names::storable;
use crate::plan::{
    after_backfill, after_stale, backfill_step, bulk_of, bulk_start, due, enlist, enlist_all,
    fetching, growth, pin_song, song_with, suspect_fetches, verdict, wants_replacement,
    window_fetches, Bulk, DownloadReason, Fetch, PassInput, PassMode, Verdict,
};
use crate::score::weight;
use vstd::prelude::*;

verus! {

/// How pressing a reason is, the most pressing first.
pub open spec fn turn_of(reason: DownloadReason) -> int {
    match reason {
        DownloadReason::Suspect => 0,
        DownloadReason::Window => 1,
        DownloadReason::Stale => 2,
        DownloadReason::Backfill => 3,
    }
}

/// Downloads in the order of how pressing they are, none less so than `to`.
spec fn in_turn(f: Seq<Fetch>, to: int) -> bool {
    &&& forall|a: int, b: int|
        0 <= a < b < f.len() ==> turn_of((#[trigger] f[a]).reason) <= turn_of(
            (#[trigger] f[b]).reason,
        )
    &&& forall|a: int| 0 <= a < f.len() ==> turn_of((#[trigger] f[a]).reason) <= to
}

/// A list that another begins with.
spec fn grown(f: Seq<Fetch>, g: Seq<Fetch>) -> bool {
    f.len() <= g.len() && forall|k: int| 0 <= k < f.len() ==> f[k] == #[trigger] g[k]
}

proof fn grown_keeps(f: Seq<Fetch>, g: Seq<Fetch>, id: Seq<char>)
    requires
        grown(f, g),
        fetching(f, id),
    ensures
        fetching(g, id),
{
    let k = choose|k: int| 0 <= k < f.len() && (#[trigger] f[k]).id@ == id;
    assert(g[k].id@ == id);
}

/// One download more is taken exactly where there is room in the batch for it, it can be stored
/// and it is not being fetched already, and then it is the last.
pub proof fn enlisting_takes_what_it_can(f: Seq<Fetch>, batch: int, id: SongId, reason: DownloadReason)
    ensures
        ({
            let g = enlist(f, batch, id, reason);
            let takes = f.len() < batch && storable(id@) && forall|k: int|
                0 <= k < f.len() ==> (#[trigger] f[k]).id@ != id@;
            &&& takes ==> g.len() == f.len() + 1 && g.last() == (Fetch { id, reason }) && g.drop_last()
                == f
            &&& !takes ==> g == f
            &&& storable(id@) ==> fetching(g, id@) || g.len() >= batch
        }),
{
    let g = enlist(f, batch, id, reason);
    if g.len() > f.len() {
        assert(g[f.len() as int].id@ == id@);
        assert(g.drop_last() =~= f);
    } else if f.len() < batch && storable(id@) && forall|k: int|
        0 <= k < f.len() ==> (#[trigger] f[k]).id@ != id@ {
        assert(fetching(f, id@));
    }
}

proof fn enlisting_keeps_turns(f: Seq<Fetch>, batch: int, id: SongId, reason: DownloadReason)
    requires
        in_turn(f, turn_of(reason)),
    ensures
        in_turn(enlist(f, batch, id, reason), turn_of(reason)),
        grown(f, enlist(f, batch, id, reason)),
{
}

proof fn suspects_in_turn(input: PassInput, n: int)
    requires
        0 <= n <= input.entries@.len(),
    ensures
        in_turn(suspect_fetches(input, n), 0),
    decreases n,
{
    if n > 0 {
        suspects_in_turn(input, n - 1);
        enlisting_keeps_turns(
            suspect_fetches(input, n - 1),
            input.download_batch as int,
            input.entries@[n - 1].id,
            DownloadReason::Suspect,
        );
    }
}

proof fn windows_in_turn(input: PassInput, n: int)
    requires
        0 <= n <= input.window@.len(),
    ensures
        in_turn(window_fetches(input, n), 1),
        grown(suspect_fetches(input, input.entries@.len() as int), window_fetches(input, n)),
    decreases n,
{
    if n > 0 {
        windows_in_turn(input, n - 1);
        enlisting_keeps_turns(
            window_fetches(input, n - 1),
            input.download_batch as int,
            input.window@[n - 1],
            DownloadReason::Window,
        );
    } else {
        suspects_in_turn(input, input.entries@.len() as int);
    }
}

proof fn stale_in_turn(input: PassInput, n: int)
    requires
        0 <= n <= input.entries@.len(),
    ensures
        in_turn(after_stale(input, n).fetches, 2),
        grown(bulk_start(input).fetches, after_stale(input, n).fetches),
    decreases n,
{
    if n > 0 {
        stale_in_turn(input, n - 1);
        enlisting_keeps_turns(
            after_stale(input, n - 1).fetches,
            input.download_batch as int,
            input.entries@[n - 1].id,
            DownloadReason::Stale,
        );
    } else {
        windows_in_turn(input, input.window@.len() as int);
    }
}

proof fn enlisted_in_turn(f: Seq<Fetch>, batch: int, songs: Seq<Song>, at: Seq<usize>, n: int)
    requires
        in_turn(f, 3),
        0 <= n <= at.len(),
    ensures
        in_turn(enlist_all(f, batch, songs, at, n), 3),
        grown(f, enlist_all(f, batch, songs, at, n)),
        forall|j: int|
            0 <= j < n && storable(songs[(#[trigger] at[j]) as int].id@) ==> fetching(
                enlist_all(f, batch, songs, at, n),
                songs[at[j] as int].id@,
            ) || enlist_all(f, batch, songs, at, n).len() >= batch,
    decreases n,
{
    if n > 0 {
        enlisted_in_turn(f, batch, songs, at, n - 1);
        let was = enlist_all(f, batch, songs, at, n - 1);
        let id = songs[at[n - 1] as int].id;
        let now = enlist_all(f, batch, songs, at, n);
        enlisting_keeps_turns(was, batch, id, DownloadReason::Backfill);
        enlisting_takes_what_it_can(was, batch, id, DownloadReason::Backfill);
        assert forall|j: int|
            0 <= j < n && storable(songs[(#[trigger] at[j]) as int].id@) implies fetching(
            now,
            songs[at[j] as int].id@,
        ) || now.len() >= batch by {
            if j < n - 1 && fetching(was, songs[at[j] as int].id@) {
                grown_keeps(was, now, songs[at[j] as int].id@);
            }
        }
    }
}

proof fn backfill_in_turn(input: PassInput, k: int)
    requires
        input.judging(),
        0 <= k <= input.line().groups.len(),
    ensures
        in_turn(after_backfill(input, k).fetches, 3),
        grown(
            after_stale(input, input.entries@.len() as int).fetches,
            after_backfill(input, k).fetches,
        ),
    decreases k,
{
    if k > 0 {
        backfill_in_turn(input, k - 1);
        step_in_turn(input, after_backfill(input, k - 1), k - 1);
    } else {
        stale_in_turn(input, input.entries@.len() as int);
    }
}

proof fn step_in_turn(input: PassInput, b: Bulk, slot: int)
    requires
        in_turn(b.fetches, 3),
    ensures
        in_turn(backfill_step(input, b, slot).fetches, 3),
        grown(b.fetches, backfill_step(input, b, slot).fetches),
{
    let songs = input.line().groups[slot].songs@;
    let at = due(input, slot);
    enlisted_in_turn(b.fetches, input.download_batch as int, songs, at, at.len() as int);
}

proof fn backfill_only_grows(input: PassInput, k: int, n: int)
    requires
        input.judging(),
        0 <= k <= n <= input.line().groups.len(),
    ensures
        grown(after_backfill(input, k).fetches, after_backfill(input, n).fetches),
    decreases n - k,
{
    if k < n {
        backfill_only_grows(input, k, n - 1);
        backfill_in_turn(input, n - 1);
        step_in_turn(input, after_backfill(input, n - 1), n - 1);
    }
}

proof fn bulk_only_grows(input: PassInput)
    ensures
        grown(bulk_start(input).fetches, bulk_of(input).fetches),
        input.may_bulk() ==> grown(
            after_stale(input, input.entries@.len() as int).fetches,
            bulk_of(input).fetches,
        ),
        in_turn(bulk_of(input).fetches, 3),
{
    let n = input.entries@.len() as int;
    stale_in_turn(input, n);
    if input.may_bulk() && input.judging() {
        backfill_in_turn(input, input.line().groups.len() as int);
    } else if !input.may_bulk() {
        stale_in_turn(input, 0);
    }
}

/// The more pressing goes first: suspects, then the window, then what is stale, then pins.
pub proof fn the_more_pressing_goes_first(input: PassInput, i: int, j: int)
    requires
        0 <= i < j < bulk_of(input).fetches.len(),
    ensures
        turn_of(bulk_of(input).fetches[i].reason) <= turn_of(bulk_of(input).fetches[j].reason),
{
    bulk_only_grows(input);
}

proof fn suspects_are_taken(input: PassInput, n: int, i: int)
    requires
        0 <= i < n <= input.entries@.len(),
        input.entries@[i].suspect,
        storable(input.entries@[i].id@),
    ensures
        fetching(suspect_fetches(input, n), input.entries@[i].id@) || suspect_fetches(
            input,
            n,
        ).len() >= input.download_batch,
    decreases n,
{
    let e = input.entries@[n - 1];
    let was = suspect_fetches(input, n - 1);
    let batch = input.download_batch as int;
    suspects_in_turn(input, n - 1);
    enlisting_keeps_turns(was, batch, e.id, DownloadReason::Suspect);
    enlisting_takes_what_it_can(was, batch, e.id, DownloadReason::Suspect);
    if i < n - 1 {
        suspects_are_taken(input, n - 1, i);
        if fetching(was, input.entries@[i].id@) {
            grown_keeps(was, suspect_fetches(input, n), input.entries@[i].id@);
        }
    }
}

/// Bytes that failed to play are fetched again, on any pass that may write at all, unless the
/// batch is used up.
pub proof fn suspects_are_fetched(input: PassInput, i: int)
    requires
        input.max_bytes > 0,
        0 <= i < input.entries@.len(),
        input.entries@[i].suspect,
        storable(input.entries@[i].id@),
    ensures
        fetching(bulk_of(input).fetches, input.entries@[i].id@) || bulk_of(input).fetches.len()
            >= input.download_batch,
{
    let n = input.entries@.len() as int;
    suspects_are_taken(input, n, i);
    windows_in_turn(input, input.window@.len() as int);
    bulk_only_grows(input);
    let f = suspect_fetches(input, n);
    let w = bulk_start(input).fetches;
    let g = bulk_of(input).fetches;
    assert(grown(f, g)) by {
        assert forall|k: int| 0 <= k < f.len() implies f[k] == #[trigger] g[k] by {
            assert(f[k] == w[k]);
        }
    }
    if fetching(f, input.entries@[i].id@) {
        grown_keeps(f, g, input.entries@[i].id@);
    }
}

proof fn windows_are_taken(input: PassInput, n: int, i: int)
    requires
        0 <= i < n <= input.window@.len(),
        !cached(input.entries@, input.window@[i]@),
        storable(input.window@[i]@),
    ensures
        fetching(window_fetches(input, n), input.window@[i]@) || window_fetches(input, n).len()
            >= input.download_batch,
    decreases n,
{
    let id = input.window@[n - 1];
    let was = window_fetches(input, n - 1);
    let batch = input.download_batch as int;
    windows_in_turn(input, n - 1);
    enlisting_keeps_turns(was, batch, id, DownloadReason::Window);
    enlisting_takes_what_it_can(was, batch, id, DownloadReason::Window);
    if i < n - 1 {
        windows_are_taken(input, n - 1, i);
        if fetching(was, input.window@[i]@) {
            grown_keeps(was, window_fetches(input, n), input.window@[i]@);
        }
    }
}

/// What is about to be heard and is not on disk is fetched, on any pass that may write at all,
/// unless the batch is used up.
pub proof fn windows_are_fetched(input: PassInput, i: int)
    requires
        input.max_bytes > 0,
        0 <= i < input.window@.len(),
        storable(input.window@[i]@),
        forall|k: int|
            0 <= k < input.entries@.len() ==> (#[trigger] input.entries@[k]).id@ != input.window@[i]@,
    ensures
        fetching(bulk_of(input).fetches, input.window@[i]@) || bulk_of(input).fetches.len()
            >= input.download_batch,
{
    cached_means_listed(input.entries@, input.window@[i]@);
    windows_are_taken(input, input.window@.len() as int, i);
    bulk_only_grows(input);
    if fetching(bulk_start(input).fetches, input.window@[i]@) {
        grown_keeps(bulk_start(input).fetches, bulk_of(input).fetches, input.window@[i]@);
    }
}

/// The window is fetched in the order of play: of two of its downloads the first stands earlier
/// in it.
pub proof fn windows_are_fetched_in_order(input: PassInput, n: int, a: int, b: int)
    requires
        0 <= n <= input.window@.len(),
        0 <= a < b < window_fetches(input, n).len(),
        window_fetches(input, n)[a].reason == DownloadReason::Window,
        window_fetches(input, n)[b].reason == DownloadReason::Window,
    ensures
        exists|p: int, q: int|
            0 <= p < q < n && #[trigger] input.window@[p] == window_fetches(input, n)[a].id
                && #[trigger] input.window@[q] == window_fetches(input, n)[b].id,
    decreases n,
{
    let f = window_fetches(input, n);
    if n > 0 {
        let was = window_fetches(input, n - 1);
        windows_in_turn(input, n - 1);
        enlisting_keeps_turns(
            was,
            input.download_batch as int,
            input.window@[n - 1],
            DownloadReason::Window,
        );
        if b < was.len() {
            windows_are_fetched_in_order(input, n - 1, a, b);
            let (p, q) = choose|p: int, q: int|
                0 <= p < q < n - 1 && #[trigger] input.window@[p] == was[a].id
                    && #[trigger] input.window@[q] == was[b].id;
            assert(input.window@[p] == f[a].id && input.window@[q] == f[b].id);
        } else {
            assert(f[a] == was[a]);
            let p = window_fetches_come_from_it(input, n - 1, a);
            assert(input.window@[p] == f[a].id && input.window@[n - 1] == f[b].id);
        }
    } else {
        suspects_are_suspects(input, input.entries@.len() as int);
    }
}

proof fn suspects_are_suspects(input: PassInput, n: int)
    requires
        0 <= n <= input.entries@.len(),
    ensures
        forall|k: int|
            0 <= k < suspect_fetches(input, n).len() ==> (#[trigger] suspect_fetches(
                input,
                n,
            )[k]).reason == DownloadReason::Suspect,
    decreases n,
{
    if n > 0 {
        suspects_are_suspects(input, n - 1);
    }
}

proof fn window_fetches_come_from_it(input: PassInput, n: int, a: int) -> (p: int)
    requires
        0 <= n <= input.window@.len(),
        0 <= a < window_fetches(input, n).len(),
        window_fetches(input, n)[a].reason == DownloadReason::Window,
    ensures
        0 <= p < n,
        input.window@[p] == window_fetches(input, n)[a].id,
    decreases n,
{
    if n <= 0 {
        suspects_are_suspects(input, input.entries@.len() as int);
        0
    } else {
        let was = window_fetches(input, n - 1);
        if a < was.len() {
            windows_in_turn(input, n - 1);
            enlisting_keeps_turns(
                was,
                input.download_batch as int,
                input.window@[n - 1],
                DownloadReason::Window,
            );
            assert(was[a] == window_fetches(input, n)[a]);
            window_fetches_come_from_it(input, n - 1, a)
        } else {
            n - 1
        }
    }
}

/// A replacement grows the store by what it is larger, and a smaller one, or one of unknown
/// size, by nothing.
pub proof fn replacements_grow_by_the_difference(input: PassInput, e: IndexEntry)
    ensures
        growth(input, e) >= 0,
        pin_song(input, e.id@) is None ==> growth(input, e) == 0,
        pin_song(input, e.id@) matches Some(s) ==> {
            &&& s.size is None ==> growth(input, e) == 0
            &&& s.size is Some && s.size->0 >= e.size ==> growth(input, e) == s.size->0 - e.size
            &&& s.size is Some && s.size->0 < e.size ==> growth(input, e) == 0
        },
{
}

/// What replacements may take is what the budget leaves above the bytes on disk, less what they
/// took so far.
pub proof fn replacements_share_the_headroom(input: PassInput, n: int)
    requires
        0 <= n <= input.entries@.len(),
    ensures
        ({
            let b = after_stale(input, n);
            &&& 0 <= b.headroom
            &&& 0 <= b.committed
            &&& input.total_bytes() <= input.max_bytes ==> b.headroom + b.committed
                == input.max_bytes - input.total_bytes()
            &&& input.total_bytes() > input.max_bytes ==> b.headroom == 0 && b.committed == 0
            &&& b.on_disk == input.total_bytes()
            &&& b.reclaimed.len() == 0
        }),
    decreases n,
{
    if n > 0 {
        replacements_share_the_headroom(input, n - 1);
        replacements_grow_by_the_difference(input, input.entries@[n - 1]);
    }
}

/// A song whose original changed is fetched again on a full pass that may do bulk work, unless
/// the batch is used up or it would grow the store by more than there is room for. One that
/// grows nothing is never passed over for want of room.
pub proof fn stale_songs_are_fetched(input: PassInput, i: int)
    requires
        input.may_bulk(),
        0 <= i < input.entries@.len(),
        storable(input.entries@[i].id@),
        wants_replacement(input, input.entries@[i]),
        growth(input, input.entries@[i]) == 0 || growth(input, input.entries@[i]) <= after_stale(
            input,
            i,
        ).headroom,
    ensures
        fetching(bulk_of(input).fetches, input.entries@[i].id@) || bulk_of(input).fetches.len()
            >= input.download_batch,
{
    let n = input.entries@.len() as int;
    let id = input.entries@[i].id@;
    replacements_share_the_headroom(input, i);
    enlisting_takes_what_it_can(
        after_stale(input, i).fetches,
        input.download_batch as int,
        input.entries@[i].id,
        DownloadReason::Stale,
    );
    stale_only_grows(input, i + 1, n);
    bulk_only_grows(input);
    let f = after_stale(input, i + 1).fetches;
    let m = after_stale(input, n).fetches;
    let g = bulk_of(input).fetches;
    assert(grown(f, g)) by {
        assert forall|k: int| 0 <= k < f.len() implies f[k] == #[trigger] g[k] by {
            assert(f[k] == m[k]);
        }
    }
    if fetching(f, id) {
        grown_keeps(f, g, id);
    }
}

proof fn stale_only_grows(input: PassInput, k: int, n: int)
    requires
        0 <= k <= n <= input.entries@.len(),
    ensures
        grown(after_stale(input, k).fetches, after_stale(input, n).fetches),
    decreases n - k,
{
    if k < n {
        stale_only_grows(input, k, n - 1);
        stale_in_turn(input, n - 1);
        enlisting_keeps_turns(
            after_stale(input, n - 1).fetches,
            input.download_batch as int,
            input.entries@[n - 1].id,
            DownloadReason::Stale,
        );
    }
}

/// A group above the line is completed: where what it lacks fits into the room that is left when
/// its turn comes, each track of it that is due is fetched, unless the batch is used up.
pub proof fn resident_groups_are_completed(input: PassInput, slot: int, j: int)
    requires
        input.may_bulk(),
        input.judging(),
        0 <= slot < input.line().groups.len(),
        input.line().walk.resident[slot],
        0 <= j < due(input, slot).len(),
        storable(input.line().groups[slot].songs@[due(input, slot)[j] as int].id@),
        capped(
            weight(input.line().groups[slot].songs@, input.line().sizes, due(input, slot)),
        ) <= after_backfill(input, slot).headroom,
    ensures
        fetching(
            bulk_of(input).fetches,
            input.line().groups[slot].songs@[due(input, slot)[j] as int].id@,
        ) || bulk_of(input).fetches.len() >= input.download_batch,
{
    let n = input.line().groups.len() as int;
    let songs = input.line().groups[slot].songs@;
    let at = due(input, slot);
    let id = songs[at[j] as int].id@;
    let b = after_backfill(input, slot);
    backfill_in_turn(input, slot);
    enlisted_in_turn(b.fetches, input.download_batch as int, songs, at, at.len() as int);
    backfill_only_grows(input, slot + 1, n);
    let f = after_backfill(input, slot + 1).fetches;
    if fetching(f, id) {
        grown_keeps(f, bulk_of(input).fetches, id);
    }
}

/// What a pass may do follows from what it is told: a full one judges where it has a pin set, and
/// does bulk work where there is a budget, the deck leaves it the network and no hand holds it.
/// What its pins may fill is the budget less the setback, or less a quarter of it where that is
/// the smaller.
pub proof fn passes_may_do_what_they_are_told(input: PassInput)
    ensures
        input.full() <==> input.mode == PassMode::Full,
        input.judging() <==> input.mode == PassMode::Full && input.pins is Some,
        input.may_write() <==> input.max_bytes > 0,
        input.may_bulk() <==> input.mode == PassMode::Full && input.max_bytes > 0
            && !input.defer_bulk && !input.paused,
        input.pins is Some ==> input.pinned_songs() == input.pins->0.all_songs(),
        input.pins is Some && input.max_bytes / 4 <= STORE_PIN_CEILING_SETBACK ==> input.line()
            == line_of(
            input.pins->0,
            input.entries@,
            (input.max_bytes - input.max_bytes / 4) as u64,
            input.now_unix,
        ),
        input.pins is Some && input.max_bytes / 4 > STORE_PIN_CEILING_SETBACK ==> input.line()
            == line_of(
            input.pins->0,
            input.entries@,
            (input.max_bytes - STORE_PIN_CEILING_SETBACK) as u64,
            input.now_unix,
        ),
{
}

/// A replacement is wanted of an entry that is marked stale, and of one that the server's copy of
/// its pin was found to differ from, and of no other.
pub proof fn replacements_are_wanted_for_cause(input: PassInput, e: IndexEntry)
    ensures
        e.stale ==> wants_replacement(input, e),
        !e.stale && !input.judging() ==> !wants_replacement(input, e),
        !e.stale && input.judging() && storable(e.id@) && entry_with(input.entries@, e.id@) == Some(
            e,
        ) ==> (wants_replacement(input, e) <==> (song_with(
            input.pins->0.all_songs(),
            e.id@,
        ) matches Some(s) && verdict(e, s) == Verdict::Differ)),
        !e.stale && !storable(e.id@) ==> !wants_replacement(input, e),
{
}

/// A group that fits into the room that is left takes of it what it costs, and nothing is
/// reclaimed for it. One below the line, one that lacks nothing, and any once the batch is used
/// up, takes nothing.
pub proof fn groups_take_what_they_cost(input: PassInput, b: Bulk, slot: int)
    ensures
        ({
            let songs = input.line().groups[slot].songs@;
            let cost = capped(weight(songs, input.line().sizes, due(input, slot)));
            let after = backfill_step(input, b, slot);
            let asks = b.fetches.len() < input.download_batch && input.line().walk.resident[slot]
                && due(input, slot).len() > 0;
            &&& !asks ==> after == b
            &&& asks && cost <= b.headroom ==> {
                &&& after.reclaimed == b.reclaimed
                &&& after.on_disk == b.on_disk
                &&& after.fetches == enlist_all(
                    b.fetches,
                    input.download_batch as int,
                    songs,
                    due(input, slot),
                    due(input, slot).len() as int,
                )
                &&& after.fetches.len() > b.fetches.len() ==> after.headroom == b.headroom - cost
                    && after.committed == b.committed + cost
                &&& after.fetches.len() == b.fetches.len() ==> after.headroom == b.headroom
                    && after.committed == b.committed
            }
        }),
{
    let songs = input.line().groups[slot].songs@;
    all_is_taken_in_turn(
        b.fetches,
        input.download_batch as int,
        songs,
        due(input, slot),
        due(input, slot).len() as int,
    );
}

/// Tracks are asked for one by one, in their order, each as a backfill.
pub proof fn all_is_taken_in_turn(
    f: Seq<Fetch>,
    batch: int,
    songs: Seq<Song>,
    at: Seq<usize>,
    n: int,
)
    requires
        0 <= n <= at.len(),
    ensures
        enlist_all(f, batch, songs, at, 0) == f,
        n < at.len() ==> enlist_all(f, batch, songs, at, n + 1) == enlist(
            enlist_all(f, batch, songs, at, n),
            batch,
            songs[at[n] as int].id,
            DownloadReason::Backfill,
        ),
        f.len() <= enlist_all(f, batch, songs, at, n).len(),
    decreases n,
{
    if n > 0 {
        all_is_taken_in_turn(f, batch, songs, at, n - 1);
    }
}

} // verus!
