//! What holds of every status that describes a pass.
use crate::budget::{capped, ceiling_is_bounded, ceiling_of};
use crate::entries::{cached, entry_bytes, IndexEntry};
use crate::frontier::{Claim, Line};
use crate::frontier_laws::{lines_fit_the_ceiling, staked_bytes};
use crate::names::storable;
use crate::pins::PinTier;
use crate::plan::{claim_bytes, claims_cached, claims_of_tier, describes, PassInput};
use crate::score::sizes_are_natural;
use crate::status::{GroupStanding, StoreStatus, StoreWaiting};
use vstd::prelude::*;

verus! {

proof fn cached_or_not(claims: Seq<Claim>, entries: Seq<IndexEntry>)
    ensures
        claims_cached(claims, entries, true).len() + claims_cached(claims, entries, false).len()
            == claims.len(),
    decreases claims.len(),
{
    reveal(Seq::filter);
    if claims.len() > 0 {
        cached_or_not(claims.drop_last(), entries);
    }
}

proof fn tiers_part_the_claims(line: Line, claims: Seq<Claim>)
    ensures
        claims_of_tier(line, claims, PinTier::Song).len() + claims_of_tier(
            line,
            claims,
            PinTier::Album,
        ).len() + claims_of_tier(line, claims, PinTier::Artist).len() == claims.len(),
    decreases claims.len(),
{
    reveal(Seq::filter);
    if claims.len() > 0 {
        tiers_part_the_claims(line, claims.drop_last());
    }
}

/// Bytes under claims are those the line accounts for, and never less than nothing.
proof fn claims_weigh_their_tracks(line: Line, claims: Seq<Claim>)
    ensures
        claim_bytes(line, claims) == staked_bytes(line.sizes, claims),
        0 <= claim_bytes(line, claims),
    decreases claims.len(),
{
    if claims.len() > 0 {
        claims_weigh_their_tracks(line, claims.drop_last());
        sizes_are_natural(line.sizes, claims.last().id@);
    }
}

/// Bytes under a list of claims, split by what is on disk.
proof fn cached_bytes_or_not(line: Line, claims: Seq<Claim>, entries: Seq<IndexEntry>)
    ensures
        claim_bytes(line, claims_cached(claims, entries, true)) + claim_bytes(
            line,
            claims_cached(claims, entries, false),
        ) == claim_bytes(line, claims),
    decreases claims.len(),
{
    reveal(Seq::filter);
    if claims.len() > 0 {
        let rest = claims.drop_last();
        let c = claims.last();
        cached_bytes_or_not(line, rest, entries);
        let here = claims_cached(rest, entries, true);
        let due = claims_cached(rest, entries, false);
        assert(here.push(c).drop_last() =~= here);
        assert(due.push(c).drop_last() =~= due);
        if cached(entries, c.id@) {
            assert(claims_cached(claims, entries, true) == here.push(c));
            assert(claims_cached(claims, entries, false) == due);
        } else {
            assert(claims_cached(claims, entries, true) == here);
            assert(claims_cached(claims, entries, false) == due.push(c));
        }
    }
}

/// Bytes under a list of claims, split by gesture.
proof fn tiers_part_the_bytes(line: Line, claims: Seq<Claim>)
    ensures
        claim_bytes(line, claims_of_tier(line, claims, PinTier::Song)) + claim_bytes(
            line,
            claims_of_tier(line, claims, PinTier::Album),
        ) + claim_bytes(line, claims_of_tier(line, claims, PinTier::Artist)) == claim_bytes(
            line,
            claims,
        ),
    decreases claims.len(),
{
    reveal(Seq::filter);
    if claims.len() > 0 {
        let rest = claims.drop_last();
        let c = claims.last();
        tiers_part_the_bytes(line, rest);
        let songs = claims_of_tier(line, rest, PinTier::Song);
        let albums = claims_of_tier(line, rest, PinTier::Album);
        let artists = claims_of_tier(line, rest, PinTier::Artist);
        assert(songs.push(c).drop_last() =~= songs);
        assert(albums.push(c).drop_last() =~= albums);
        assert(artists.push(c).drop_last() =~= artists);
    }
}

/// A status adds up, in tracks and in bytes: what the mirror decided to hold is on disk or
/// still to come, and is held for exactly one of the three gestures. It is never more than the
/// pins may fill.
pub proof fn statuses_add_up(s: StoreStatus, input: PassInput)
    requires
        input.judging(),
        describes(s, input),
    ensures
        s.cached_tracks + s.pending_tracks == s.resident_tracks,
        s.tier_tracks@[0] + s.tier_tracks@[1] + s.tier_tracks@[2] == s.resident_tracks,
        s.tier_bytes@[0] + s.tier_bytes@[1] + s.tier_bytes@[2] == s.resident_bytes,
        s.pending_bytes <= s.resident_bytes,
        s.pending_bytes + claim_bytes(
            input.line(),
            claims_cached(input.line().walk.claims, input.entries@, true),
        ) == s.resident_bytes,
        s.resident_bytes <= ceiling_of(input.max_bytes as int) <= input.max_bytes,
{
    let line = input.line();
    cached_or_not(line.walk.claims, input.entries@);
    tiers_part_the_claims(line, line.walk.claims);
    let ceiling = ceiling_of(input.max_bytes as int);
    ceiling_is_bounded(input.max_bytes as int);
    lines_fit_the_ceiling(input.pins->0, input.entries@, ceiling as u64, input.now_unix);
    let claims = line.walk.claims;
    claims_weigh_their_tracks(line, claims);
    claims_weigh_their_tracks(line, claims_cached(claims, input.entries@, true));
    claims_weigh_their_tracks(line, claims_cached(claims, input.entries@, false));
    claims_weigh_their_tracks(line, claims_of_tier(line, claims, PinTier::Song));
    claims_weigh_their_tracks(line, claims_of_tier(line, claims, PinTier::Album));
    claims_weigh_their_tracks(line, claims_of_tier(line, claims, PinTier::Artist));
    cached_bytes_or_not(line, claims, input.entries@);
    tiers_part_the_bytes(line, claims);
    assert(ceiling < u64::MAX);
    assert(line.walk.spent == capped(staked_bytes(line.sizes, claims)));
}

/// A mirror is complete once a pass has judged and nothing is left to fetch; where a pass is
/// described, that is where everything decided on is on disk.
pub proof fn mirrors_complete_with_the_last_track(s: StoreStatus, input: PassInput)
    requires
        input.judging(),
    ensures
        s.is_complete() <==> s.known && s.pending_tracks == 0,
        describes(s, input) ==> (s.is_complete() <==> s.cached_tracks == s.resident_tracks),
{
    cached_or_not(input.line().walk.claims, input.entries@);
}

/// Why bulk work waits, in this order: a breached reserve, a hand, the deck. Where there is none
/// of these it does not wait.
pub proof fn work_waits_for_cause(s: StoreStatus, input: PassInput)
    requires
        describes(s, input),
    ensures
        s.waiting == StoreWaiting::ReserveBreached <==> input.max_bytes == 0,
        s.waiting == StoreWaiting::Paused <==> input.max_bytes > 0 && input.paused,
        s.waiting == StoreWaiting::PlaybackRemote <==> input.max_bytes > 0 && !input.paused
            && input.defer_bulk,
        s.waiting == StoreWaiting::NotWaiting <==> input.max_bytes > 0 && !input.paused
            && !input.defer_bulk,
{
}

/// A status hands on what the pass was told: the cap, the budget and where it came from, and the
/// free space behind it. It counts the entries on disk and their bytes, as far as 64 bits go.
pub proof fn statuses_hand_on_what_was_told(s: StoreStatus, input: PassInput)
    requires
        describes(s, input),
    ensures
        s.known,
        s.configured_max == input.configured_max,
        s.effective_max == input.max_bytes,
        s.budget_source == input.budget_source,
        s.reserve == input.reserve,
        s.avail == input.avail,
        s.fs_total == input.fs_total,
        s.entries == input.entries@.len(),
        ({
            let sum = entry_bytes(input.entries@, input.entries@.len() as int);
            &&& sum <= u64::MAX ==> s.bytes == sum
            &&& sum > u64::MAX ==> s.bytes == u64::MAX
        }),
        s.resident_tracks == input.line().walk.claims.len(),
        s.frontier@.len() == input.line().groups.len(),
{
}

/// Bytes on disk are added up, entry by entry.
pub proof fn entries_add_up(entries: Seq<IndexEntry>, n: int)
    requires
        0 <= n < entries.len(),
    ensures
        entry_bytes(entries, 0) == 0,
        entry_bytes(entries, n + 1) == entry_bytes(entries, n) + entries[n].size,
{
}

/// Every group is reported in its place, under its own kind, id, name and gesture, and as it
/// stands: resident where tracks are held for it, deferred where it misses any, and covered where
/// others hold all it has. One that has nothing stands as it was admitted.
pub proof fn groups_are_reported_in_place(s: StoreStatus, input: PassInput, k: int)
    requires
        input.judging(),
        describes(s, input),
        0 <= k < s.frontier@.len(),
    ensures
        ({
            let g = input.line().groups[k];
            let r = s.frontier@[k];
            let keeps = exists|i: int|
                0 <= i < input.line().walk.claims.len() && (
                #[trigger] input.line().walk.claims[i]).slot == k;
            &&& r.kind == g.kind && r.id == g.id && r.name == g.name && r.tier == g.tier
            &&& r.rank == k
            &&& keeps ==> r.standing == GroupStanding::Resident
            &&& !keeps && r.missing_tracks > 0 ==> r.standing == GroupStanding::Deferred
            &&& !keeps && r.missing_tracks == 0 && r.tracks > 0 ==> r.standing
                == GroupStanding::Covered
            &&& !keeps && r.missing_tracks == 0 && r.tracks == 0 ==> r.standing == (
            if input.line().walk.resident[k] {
                GroupStanding::Resident
            } else {
                GroupStanding::Deferred
            })
            &&& r.held <==> exists|i: int|
                0 <= i < g.songs@.len() && storable((#[trigger] g.songs@[i]).id@) && cached(
                    input.entries@,
                    g.songs@[i].id@,
                )
        }),
{
    let line = input.line();
    assert(line.reports(s.frontier@[k], input.entries@, input.now_unix, k));
}

} // verus!
