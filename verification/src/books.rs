//! The books of a pass: its bulk work stays within the budget.
use crate::budget::{capped, ceiling_of};
use crate::entries::{distinct_entries, entry_bytes, entry_with, IndexEntry};
use crate::frontier_laws::{order_is_a_permutation, outstanding_fits_the_ceiling};
use crate::model::{Song, SongId};
use crate::plan::{
    after_backfill, after_stale, backfill_step, bulk_of, bulk_start, due, enlist, enlist_all,
    freed, growth, reclaim, room_after, victims, Bulk, DownloadReason, Fetch, PassInput,
};
use crate::plan_laws::{
    audible, audible_windows, backfill_is_sound, bulk_is_sound, bytes_at, ids_at, places_of,
    reclaimed_at, reclaiming_is_sound, sound_bulk, turn_reclaims,
};
use crate::score::{sizes_are_natural, weight};
use vstd::prelude::*;

verus! {

/// Bytes by which a bulk download grows the store; what is about to be heard is not budgeted.
pub open spec fn planned(input: PassInput, x: Fetch) -> int {
    match x.reason {
        DownloadReason::Backfill => input.line().size(x.id@),
        DownloadReason::Stale => match entry_with(input.entries@, x.id@) {
            Some(e) => growth(input, e),
            None => 0,
        },
        _ => 0,
    }
}

/// Bytes by which these bulk downloads grow the store.
pub open spec fn planned_bytes(input: PassInput, fetches: Seq<Fetch>) -> int
    decreases fetches.len(),
{
    if fetches.len() == 0 {
        0
    } else {
        planned_bytes(input, fetches.drop_last()) + planned(input, fetches.last())
    }
}

/// Bytes of the entries of these ids.
pub open spec fn bytes_of_ids(entries: Seq<IndexEntry>, ids: Seq<SongId>) -> int
    decreases ids.len(),
{
    if ids.len() == 0 {
        0
    } else {
        bytes_of_ids(entries, ids.drop_last()) + (match entry_with(entries, ids.last()@) {
            Some(e) => e.size as int,
            None => 0,
        })
    }
}

proof fn removing_one(entries: Seq<IndexEntry>, at: Seq<usize>, k: int)
    requires
        0 <= k < at.len(),
    ensures
        bytes_at(entries, at) == bytes_at(entries, at.remove(k)) + entries[at[k] as int].size,
    decreases at.len(),
{
    if k == at.len() - 1 {
        assert(at.remove(k) =~= at.drop_last());
    } else {
        removing_one(entries, at.drop_last(), k);
        assert(at.remove(k).drop_last() =~= at.drop_last().remove(k));
        assert(at.remove(k).last() == at.last());
        assert(at.drop_last()[k] == at[k]);
    }
}

/// Some of the entries weigh no more than all of them.
proof fn some_weigh_no_more_than_all(entries: Seq<IndexEntry>, at: Seq<usize>, n: int)
    requires
        0 <= n <= entries.len(),
        at.no_duplicates(),
        forall|k: int| 0 <= k < at.len() ==> (#[trigger] at[k]) < n,
    ensures
        0 <= bytes_at(entries, at) <= entry_bytes(entries, n),
    decreases n,
{
    if n > 0 {
        if exists|k: int| 0 <= k < at.len() && #[trigger] at[k] == n - 1 {
            let k = choose|k: int| 0 <= k < at.len() && #[trigger] at[k] == n - 1;
            let rest = at.remove(k);
            assert forall|j: int| 0 <= j < rest.len() implies (#[trigger] rest[j]) < n - 1 by {
                if j < k {
                    assert(rest[j] == at[j]);
                    assert(at[j] != at[k]);
                } else {
                    assert(rest[j] == at[j + 1]);
                    assert(at[j + 1] != at[k]);
                }
            }
            assert(rest.no_duplicates()) by {
                assert forall|x: int, y: int|
                    0 <= x < rest.len() && 0 <= y < rest.len() && x != y implies rest[x]
                    != rest[y] by {
                    let p = if x < k { x } else { x + 1 };
                    let q = if y < k { y } else { y + 1 };
                    assert(rest[x] == at[p] && rest[y] == at[q]);
                }
            }
            some_weigh_no_more_than_all(entries, rest, n - 1);
            removing_one(entries, at, k);
        } else {
            assert forall|j: int| 0 <= j < at.len() implies (#[trigger] at[j]) < n - 1 by {
                assert(at[j] != n - 1);
            }
            some_weigh_no_more_than_all(entries, at, n - 1);
        }
    } else {
        if at.len() > 0 {
            assert(at[0] < n);
        }
    }
}

proof fn bytes_at_add(entries: Seq<IndexEntry>, a: Seq<usize>, b: Seq<usize>)
    ensures
        bytes_at(entries, a + b) == bytes_at(entries, a) + bytes_at(entries, b),
    decreases b.len(),
{
    if b.len() > 0 {
        bytes_at_add(entries, a, b.drop_last());
        assert((a + b).drop_last() =~= a + b.drop_last());
    } else {
        assert(a + b =~= a);
    }
}

/// Where no two entries share an id, an entry is the one its id finds.
pub proof fn distinct_entries_find_themselves(entries: Seq<IndexEntry>, i: int)
    requires
        distinct_entries(entries),
        0 <= i < entries.len(),
    ensures
        entry_with(entries, entries[i].id@) == Some(entries[i]),
    decreases entries.len(),
{
    let n = entries.len() - 1;
    if i < n {
        assert(entries[i].id@ != entries[n].id@);
        let short = entries.drop_last();
        assert(distinct_entries(short)) by {
            assert forall|a: int, b: int| 0 <= a < b < short.len() implies (
            #[trigger] short[a]).id@ != (#[trigger] short[b]).id@ by {
                assert(short[a] == entries[a] && short[b] == entries[b]);
            }
        }
        distinct_entries_find_themselves(short, i);
    }
}

proof fn ids_weigh_their_entries(entries: Seq<IndexEntry>, at: Seq<usize>)
    requires
        distinct_entries(entries),
        forall|k: int| 0 <= k < at.len() ==> (#[trigger] at[k]) < entries.len(),
    ensures
        bytes_of_ids(entries, ids_at(entries, at)) == bytes_at(entries, at),
    decreases at.len(),
{
    if at.len() > 0 {
        let rest = at.drop_last();
        assert forall|k: int| 0 <= k < rest.len() implies (#[trigger] rest[k])
            < entries.len() by {
            assert(rest[k] == at[k]);
        }
        ids_weigh_their_entries(entries, rest);
        assert(ids_at(entries, at).drop_last() =~= ids_at(entries, rest));
        distinct_entries_find_themselves(entries, at.last() as int);
        assert(at[at.len() - 1] < entries.len());
    }
}

proof fn enlisting_adds_its_plan(
    input: PassInput,
    f: Seq<Fetch>,
    batch: int,
    id: SongId,
    reason: DownloadReason,
)
    ensures
        planned_bytes(input, enlist(f, batch, id, reason)) == planned_bytes(input, f) + if enlist(
            f,
            batch,
            id,
            reason,
        ).len() > f.len() {
            planned(input, Fetch { id, reason })
        } else {
            0
        },
{
    let x = Fetch { id, reason };
    assert(f.push(x).drop_last() =~= f);
}

proof fn enlisting_all_adds_their_weight(
    input: PassInput,
    f: Seq<Fetch>,
    batch: int,
    songs: Seq<Song>,
    at: Seq<usize>,
    n: int,
)
    requires
        0 <= n <= at.len(),
    ensures
        planned_bytes(input, enlist_all(f, batch, songs, at, n)) <= planned_bytes(input, f)
            + weight(songs, input.line().sizes, at.take(n)),
        f.len() <= enlist_all(f, batch, songs, at, n).len(),
        enlist_all(f, batch, songs, at, n).len() == f.len() ==> enlist_all(f, batch, songs, at, n)
            == f,
    decreases n,
{
    if n > 0 {
        enlisting_all_adds_their_weight(input, f, batch, songs, at, n - 1);
        let p = enlist_all(f, batch, songs, at, n - 1);
        let id = songs[at[n - 1] as int].id;
        enlisting_adds_its_plan(input, p, batch, id, DownloadReason::Backfill);
        sizes_are_natural(input.line().sizes, id@);
        assert(at.take(n).drop_last() =~= at.take(n - 1));
        assert(at.take(n).last() == at[n - 1]);
    } else {
        assert(at.take(0) =~= Seq::<usize>::empty());
    }
}

proof fn audible_plans_nothing(input: PassInput, f: Seq<Fetch>)
    requires
        forall|k: int| 0 <= k < f.len() ==> audible(input, #[trigger] f[k]),
    ensures
        planned_bytes(input, f) == 0,
    decreases f.len(),
{
    if f.len() > 0 {
        let rest = f.drop_last();
        assert forall|k: int| 0 <= k < rest.len() implies audible(input, #[trigger] rest[k]) by {
            assert(rest[k] == f[k]);
        }
        audible_plans_nothing(input, rest);
        assert(audible(input, f[f.len() - 1]));
    }
}

/// The books of the bulk work: where anything is set aside or may still be spent, it fits into
/// the budget together with what is left on disk.
pub open spec fn balanced(input: PassInput, b: Bulk) -> bool {
    &&& 0 <= b.headroom
    &&& 0 <= b.on_disk
    &&& 0 <= b.committed
    &&& planned_bytes(input, b.fetches) <= b.committed
    &&& b.committed + b.headroom > 0 ==> b.committed + b.on_disk + b.headroom <= input.max_bytes
}

proof fn stale_work_balances(input: PassInput, n: int)
    requires
        input.may_write(),
        distinct_entries(input.entries@),
        0 <= n <= input.entries@.len(),
        0 <= input.total_bytes(),
    ensures
        balanced(input, after_stale(input, n)),
        after_stale(input, n).on_disk == input.total_bytes(),
    decreases n,
{
    if n > 0 {
        stale_work_balances(input, n - 1);
        let b = after_stale(input, n - 1);
        let e = input.entries@[n - 1];
        distinct_entries_find_themselves(input.entries@, n - 1);
        enlisting_adds_its_plan(
            input,
            b.fetches,
            input.download_batch as int,
            e.id,
            DownloadReason::Stale,
        );
        assert(planned(input, Fetch { id: e.id, reason: DownloadReason::Stale }) == growth(input, e));
    } else {
        audible_windows(input, input.window@.len() as int);
        audible_plans_nothing(input, bulk_start(input).fetches);
    }
}

/// What a group above the line still has to fetch weighs less than 64 bits count.
proof fn due_weight_fits(input: PassInput, slot: int)
    requires
        input.judging(),
        0 <= slot < input.line().groups.len(),
        input.line().walk.resident[slot],
    ensures
        0 <= weight(
            input.line().groups[slot].songs@,
            input.line().sizes,
            due(input, slot),
        ) <= u64::MAX,
{
    let ceiling = ceiling_of(input.max_bytes as int) as u64;
    lines_have_a_slot_per_group(input);
    outstanding_fits_the_ceiling(input.pins->0, input.entries@, ceiling, input.now_unix, slot);
}

/// What a turn frees, and that it was there to be freed.
proof fn turn_frees(input: PassInput, slot: int)
    requires
        input.judging(),
        entry_bytes(input.entries@, input.entries@.len() as int) <= u64::MAX,
        sound_bulk(input, after_backfill(input, slot), reclaimed_at(input, slot)),
        reclaimed_at(input, slot).no_duplicates(),
        0 <= slot,
    ensures
        ({
            let b = after_backfill(input, slot);
            let line = input.line();
            let outstanding = capped(
                weight(line.groups[slot].songs@, line.sizes, due(input, slot)),
            );
            let got = reclaim(input, b, outstanding - b.headroom);
            let more = places_of(victims(input), got);
            &&& freed(victims(input), input.entries@, got) == bytes_at(input.entries@, more)
            &&& 0 <= bytes_at(input.entries@, more)
            &&& 0 <= bytes_at(input.entries@, reclaimed_at(input, slot))
            &&& bytes_at(input.entries@, reclaimed_at(input, slot)) + bytes_at(input.entries@, more)
                <= entry_bytes(input.entries@, input.entries@.len() as int)
            &&& bytes_at(input.entries@, reclaimed_at(input, slot) + more) == bytes_at(
                input.entries@,
                reclaimed_at(input, slot),
            ) + bytes_at(input.entries@, more)
        }),
{
    let entries = input.entries@;
    let b = after_backfill(input, slot);
    let line = input.line();
    let outstanding = capped(weight(line.groups[slot].songs@, line.sizes, due(input, slot)));
    let want = outstanding - b.headroom;
    let gone = reclaimed_at(input, slot);
    let more = places_of(victims(input), reclaim(input, b, want));
    reclaiming_is_sound(input, b, gone, want);
    bytes_at_add(entries, gone, more);
    let all = gone + more;
    assert forall|k: int| 0 <= k < all.len() implies (#[trigger] all[k]) < entries.len() by {
        if k < gone.len() {
            assert(all[k] == gone[k]);
        } else {
            assert(all[k] == more[k - gone.len()]);
        }
    }
    some_weigh_no_more_than_all(entries, all, entries.len() as int);
    assert(more.no_duplicates()) by {
        assert forall|x: int, y: int| 0 <= x < more.len() && 0 <= y < more.len() && x != y implies more[x]
            != more[y] by {
            assert(all[gone.len() + x] == more[x] && all[gone.len() + y] == more[y]);
        }
    }
    some_weigh_no_more_than_all(entries, more, entries.len() as int);
    some_weigh_no_more_than_all(entries, gone, entries.len() as int);
}

/// The line of a pass has one slot per group of its pin set.
proof fn lines_have_a_slot_per_group(input: PassInput)
    requires
        input.judging(),
    ensures
        input.line().groups.len() == input.pins->0.groups@.len(),
{
    order_is_a_permutation(input.pins->0, input.entries@, input.now_unix);
}

proof fn backfill_step_balances(input: PassInput, slot: int)
    requires
        input.judging(),
        0 <= slot < input.line().groups.len(),
        entry_bytes(input.entries@, input.entries@.len() as int) <= u64::MAX,
        balanced(input, after_backfill(input, slot)),
        after_backfill(input, slot).on_disk == input.total_bytes() - bytes_at(
            input.entries@,
            reclaimed_at(input, slot),
        ),
        sound_bulk(input, after_backfill(input, slot), reclaimed_at(input, slot)),
        reclaimed_at(input, slot).no_duplicates(),
    ensures
        balanced(input, after_backfill(input, slot + 1)),
        after_backfill(input, slot + 1).on_disk == input.total_bytes() - bytes_at(
            input.entries@,
            reclaimed_at(input, slot + 1),
        ),
{
    let b = after_backfill(input, slot);
    let line = input.line();
    let songs = line.groups[slot].songs@;
    let at = due(input, slot);
    let gone = reclaimed_at(input, slot);
    let more = turn_reclaims(input, b, slot);
    assert(after_backfill(input, slot + 1) == backfill_step(input, b, slot));
    assert(reclaimed_at(input, slot + 1) == gone + more);
    turn_frees(input, slot);
    assert(gone + Seq::<usize>::empty() =~= gone);
    assert(at.take(at.len() as int) =~= at);
    if b.fetches.len() >= input.download_batch || !line.walk.resident[slot] || at.len() == 0 {
        assert(more =~= Seq::empty());
    } else {
        due_weight_fits(input, slot);
        enlisting_all_adds_their_weight(
            input,
            b.fetches,
            input.download_batch as int,
            songs,
            at,
            at.len() as int,
        );
        let outstanding = capped(weight(songs, line.sizes, at));
        let want = outstanding - b.headroom;
        let got = reclaim(input, b, want);
        let bytes = capped(freed(victims(input), input.entries@, got));
        if outstanding <= b.headroom || room_after(input, b, bytes) < outstanding {
            assert(more =~= Seq::empty());
        } else {
            assert(more == places_of(victims(input), got));
            assert(bytes == bytes_at(input.entries@, more));
            assert(bytes_at(input.entries@, gone + more) == bytes_at(input.entries@, gone) + bytes);
            assert(b.on_disk >= bytes);
        }
    }
}

proof fn backfill_balances(input: PassInput, k: int)
    requires
        input.judging(),
        input.may_write(),
        distinct_entries(input.entries@),
        0 <= k <= input.line().groups.len(),
        entry_bytes(input.entries@, input.entries@.len() as int) <= u64::MAX,
    ensures
        balanced(input, after_backfill(input, k)),
        after_backfill(input, k).on_disk == input.total_bytes() - bytes_at(
            input.entries@,
            reclaimed_at(input, k),
        ),
    decreases k,
{
    let entries = input.entries@;
    let n = entries.len() as int;
    assert(0 <= entry_bytes(entries, n)) by {
        some_weigh_no_more_than_all(entries, Seq::empty(), n);
    }
    if k == 0 {
        stale_work_balances(input, n);
    } else {
        backfill_balances(input, k - 1);
        backfill_is_sound(input, k - 1);
        backfill_step_balances(input, k - 1);
    }
}

/// Bulk work never takes the store past its budget: where what a pass fetches in bulk grows the
/// store at all, it fits into the budget together with what the pass leaves on disk after its
/// reclaims. A replacement that is no larger than what it replaces grows nothing, and goes ahead
/// in an over-full store too. (Byte counts past 64 bits are out of this account.)
pub proof fn bulk_work_stays_within_the_budget(input: PassInput)
    requires
        distinct_entries(input.entries@),
        entry_bytes(input.entries@, input.entries@.len() as int) <= u64::MAX,
    ensures
        bulk_of(input).on_disk == input.total_bytes() - bytes_of_ids(
            input.entries@,
            bulk_of(input).reclaimed,
        ),
        planned_bytes(input, bulk_of(input).fetches) > 0 ==> bulk_of(input).on_disk + planned_bytes(
            input,
            bulk_of(input).fetches,
        ) <= input.max_bytes,
{
    let entries = input.entries@;
    let n = entries.len() as int;
    let b = bulk_of(input);
    let gone = bulk_is_sound(input);
    some_weigh_no_more_than_all(entries, Seq::empty(), n);
    ids_weigh_their_entries(entries, gone);
    if input.may_bulk() {
        if input.judging() {
            backfill_balances(input, input.line().groups.len() as int);
        } else {
            stale_work_balances(input, n);
        }
    } else {
        if input.may_write() {
            audible_windows(input, input.window@.len() as int);
            audible_plans_nothing(input, b.fetches);
        }
    }
}

} // verus!
