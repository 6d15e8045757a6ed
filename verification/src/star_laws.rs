//! What the line promises to loose starred songs, and to everything when there is room.
use crate::budget::star_share;
use crate::entries::IndexEntry;
use crate::frontier::{
    charge, claimed, claimed_ids, fresh, line_of, listed_bytes, reservation, stakes, star_need,
    stars_ahead, walk, wanted_above, wants_alone, Claim,
};
use crate::frontier_laws::{
    listed_bytes_are_natural, order_is_a_permutation, staked_bytes, staked_bytes_add,
    stakes_weigh_their_tracks, stars_are_natural, walks_are_sound,
};
use crate::model::Song;
use crate::names::storable;
use crate::pins::{PinGroup, PinSet, PinTier};
use crate::score::{
    lists, picked, picks, picks_are_picked, size_in, sizes_are_natural, weight, weights_are_natural,
    SizeEntry,
};
use crate::status::RankedGroup;
use vstd::prelude::*;

verus! {

/// Every loose starred song stands for itself: it wants a track that no group above it
/// wants, or nothing that could be stored.
pub open spec fn stars_stand_alone(gs: Seq<PinGroup>) -> bool {
    forall|k: int|
        0 <= k < gs.len() && (#[trigger] gs[k]).tier == PinTier::Song ==> wants_alone(gs, k) || (
        forall|i: int|
            0 <= i < gs[k].songs@.len() ==> !storable((#[trigger] gs[k].songs@[i]).id@))
}

proof fn picks_weigh_no_more_than_the_list(
    songs: Seq<Song>,
    sizes: Seq<SizeEntry>,
    skip: Set<Seq<char>>,
    n: int,
)
    requires
        0 <= n <= songs.len() <= usize::MAX,
    ensures
        weight(songs, sizes, picks(songs, skip, n)) <= listed_bytes(songs, sizes, n),
    decreases n,
{
    if n > 0 {
        picks_weigh_no_more_than_the_list(songs, sizes, skip, n - 1);
        sizes_are_natural(sizes, songs[n - 1].id@);
        if picked(songs, skip, n - 1) {
            let was = picks(songs, skip, n - 1);
            assert(picks(songs, skip, n).drop_last() =~= was);
        }
    }
}

proof fn unstorable_songs_weigh_nothing(
    songs: Seq<Song>,
    sizes: Seq<SizeEntry>,
    skip: Set<Seq<char>>,
    n: int,
)
    requires
        0 <= n <= songs.len(),
        forall|i: int| 0 <= i < songs.len() ==> !storable((#[trigger] songs[i]).id@),
    ensures
        picks(songs, skip, n).len() == 0,
    decreases n,
{
    if n > 0 {
        unstorable_songs_weigh_nothing(songs, sizes, skip, n - 1);
        assert(!storable(songs[n - 1].id@));
    }
}

proof fn stars_run_out(gs: Seq<PinGroup>, sizes: Seq<SizeEntry>, a: int, b: int)
    requires
        0 <= a <= b <= gs.len(),
    ensures
        stars_ahead(gs, sizes, b) <= stars_ahead(gs, sizes, a),
    decreases b - a,
{
    if a < b {
        stars_run_out(gs, sizes, a + 1, b);
        needs_are_natural(gs, sizes, a);
    }
}

proof fn needs_are_natural(gs: Seq<PinGroup>, sizes: Seq<SizeEntry>, slot: int)
    requires
        0 <= slot < gs.len(),
    ensures
        0 <= star_need(gs, sizes, slot),
{
    listed_bytes_are_natural(gs[slot].songs@, sizes, gs[slot].songs@.len() as int);
}

/// The walk keeps the room that the loose starred songs still to come need.
proof fn walks_keep_room_for_stars(
    gs: Seq<PinGroup>,
    sizes: Seq<SizeEntry>,
    ceiling: int,
    k: int,
)
    requires
        0 <= k <= gs.len() <= usize::MAX,
        0 <= ceiling <= u64::MAX,
        stars_stand_alone(gs),
        stars_ahead(gs, sizes, 0) <= star_share(ceiling),
    ensures
        ({
            let w = walk(gs, sizes, ceiling, k);
            &&& w.resident.len() == k
            &&& 0 <= w.spent
            &&& w.spent + stars_ahead(gs, sizes, k) <= ceiling
            &&& forall|s: int|
                0 <= s < k && (#[trigger] gs[s]).tier == PinTier::Song ==> w.resident[s]
        }),
    decreases k,
{
    if k > 0 {
        let at = k - 1;
        walks_keep_room_for_stars(gs, sizes, ceiling, at);
        let w = walk(gs, sizes, ceiling, at);
        let n = walk(gs, sizes, ceiling, k);
        let g = gs[at];
        assert(g.songs@.len() == g.songs.len());
        let cost = charge(g, sizes, w.claims);
        let ahead = stars_ahead(gs, sizes, at);
        stars_run_out(gs, sizes, 0, at);
        stars_are_natural(gs, sizes, at);
        stars_are_natural(gs, sizes, k);
        needs_are_natural(gs, sizes, at);
        weights_are_natural(g.songs@, sizes, fresh(g.songs@, w.claims));
        assert(stars_ahead(gs, sizes, at) == star_need(gs, sizes, at) + stars_ahead(gs, sizes, k));
        if g.tier == PinTier::Song {
            picks_weigh_no_more_than_the_list(
                g.songs@,
                sizes,
                claimed_ids(w.claims),
                g.songs@.len() as int,
            );
            if !wants_alone(gs, at) {
                assert(gs[at].tier == PinTier::Song);
                unstorable_songs_weigh_nothing(
                    g.songs@,
                    sizes,
                    claimed_ids(w.claims),
                    g.songs@.len() as int,
                );
            }
            assert(cost <= star_need(gs, sizes, at));
            assert(n.resident == w.resident.push(true));
        } else {
            assert(reservation(gs, sizes, ceiling, at) == ahead);
        }
        assert forall|s: int| 0 <= s < k && (#[trigger] gs[s]).tier == PinTier::Song implies
            n.resident[s] by {
            if s < at {
                assert(w.resident[s]);
            }
        }
    } else {
        assert(star_share(ceiling) <= ceiling);
    }
}

/// The floor under loose starred songs: where they need no more than the share that is set
/// aside for them, each is held, however neglected anything else is. Left out are pin sets in
/// which a loose starred song wants only what a group above it wants too: such a song has the
/// other group to carry it, and where that one is refused it is paid for out of what was kept
/// for the others.
pub proof fn stars_have_their_share(
    pins: PinSet,
    entries: Seq<IndexEntry>,
    ceiling: u64,
    now_unix: u64,
    slot: int,
)
    requires
        ({
            let line = line_of(pins, entries, ceiling, now_unix);
            &&& 0 <= slot < line.groups.len()
            &&& line.groups[slot].tier == PinTier::Song
            &&& stars_stand_alone(line.groups)
            &&& stars_ahead(line.groups, line.sizes, 0) <= star_share(ceiling as int)
        }),
    ensures
        line_of(pins, entries, ceiling, now_unix).walk.resident[slot],
{
    order_is_a_permutation(pins, entries, now_unix);
    assert(pins.groups@.len() == pins.groups.len());
    let line = line_of(pins, entries, ceiling, now_unix);
    let gs = line.groups;
    walks_keep_room_for_stars(gs, line.sizes, ceiling as int, gs.len() as int);
    assert(gs[slot].tier == PinTier::Song);
}

/// Every storable track of the first `k` groups, claimed once, by the first that lists it.
pub open spec fn all_claims(gs: Seq<PinGroup>, k: int) -> Seq<Claim>
    decreases k,
{
    if k <= 0 {
        Seq::empty()
    } else {
        let was = all_claims(gs, k - 1);
        let songs = gs[k - 1].songs@;
        was + stakes(songs, fresh(songs, was), (k - 1) as usize)
    }
}

/// A loose starred song is one song.
pub open spec fn stars_are_single(gs: Seq<PinGroup>) -> bool {
    forall|k: int|
        0 <= k < gs.len() && (#[trigger] gs[k]).tier == PinTier::Song ==> gs[k].songs@.len() <= 1
}

proof fn claims_were_wanted(gs: Seq<PinGroup>, k: int, id: Seq<char>)
    requires
        0 <= k <= gs.len() <= usize::MAX,
        claimed(all_claims(gs, k), id),
    ensures
        wanted_above(gs, k, id),
    decreases k,
{
    if k > 0 {
        let was = all_claims(gs, k - 1);
        let songs = gs[k - 1].songs@;
        let at = fresh(songs, was);
        let now = all_claims(gs, k);
        let m = choose|m: int| 0 <= m < now.len() && (#[trigger] now[m]).id@ == id;
        if m < was.len() {
            assert(was[m].id@ == id);
            claims_were_wanted(gs, k - 1, id);
            let j = choose|j: int| 0 <= j < k - 1 && lists((#[trigger] gs[j]).songs@, id);
            assert(lists(gs[j].songs@, id));
        } else {
            assert(gs[k - 1].songs@.len() == gs[k - 1].songs.len());
            picks_are_picked(songs, claimed_ids(was), songs.len() as int);
            let p = at[m - was.len()] as int;
            assert(songs[p].id@ == id);
            assert(lists(gs[k - 1].songs@, id));
        }
    }
}

proof fn totals_only_grow(gs: Seq<PinGroup>, sizes: Seq<SizeEntry>, k: int)
    requires
        0 < k <= gs.len() <= usize::MAX,
    ensures
        staked_bytes(sizes, all_claims(gs, k)) == staked_bytes(sizes, all_claims(gs, k - 1))
            + weight(
            gs[k - 1].songs@,
            sizes,
            fresh(gs[k - 1].songs@, all_claims(gs, k - 1)),
        ),
        staked_bytes(sizes, all_claims(gs, k - 1)) <= staked_bytes(sizes, all_claims(gs, k)),
{
    let was = all_claims(gs, k - 1);
    let songs = gs[k - 1].songs@;
    let at = fresh(songs, was);
    staked_bytes_add(sizes, was, stakes(songs, at, (k - 1) as usize));
    stakes_weigh_their_tracks(songs, sizes, at, (k - 1) as usize);
    weights_are_natural(songs, sizes, at);
}

/// What the loose starred songs from a slot on need is part of what is still to come.
proof fn stars_are_part_of_the_rest(gs: Seq<PinGroup>, sizes: Seq<SizeEntry>, k: int)
    requires
        0 <= k <= gs.len() <= usize::MAX,
        stars_are_single(gs),
    ensures
        stars_ahead(gs, sizes, k) <= staked_bytes(sizes, all_claims(gs, gs.len() as int))
            - staked_bytes(sizes, all_claims(gs, k)),
    decreases gs.len() - k,
{
    if k < gs.len() {
        stars_are_part_of_the_rest(gs, sizes, k + 1);
        totals_only_grow(gs, sizes, k + 1);
        let songs = gs[k].songs@;
        let was = all_claims(gs, k);
        let at = fresh(songs, was);
        weights_are_natural(songs, sizes, at);
        if gs[k].tier == PinTier::Song && wants_alone(gs, k) {
            let i = choose|i: int|
                0 <= i < gs[k].songs@.len() && storable((#[trigger] gs[k].songs@[i]).id@)
                    && !wanted_above(gs, k, gs[k].songs@[i].id@);
            assert(songs.len() == 1 && i == 0);
            let id = songs[0].id@;
            if claimed(was, id) {
                claims_were_wanted(gs, k, id);
            }
            assert(songs.take(0).len() == 0);
            assert(picked(songs, claimed_ids(was), 0));
            assert(picks(songs, claimed_ids(was), 0).len() == 0);
            assert(at =~= seq![0usize]);
            assert(at.drop_last() =~= Seq::empty());
            assert(weight(songs, sizes, at.drop_last()) == 0);
            assert(weight(songs, sizes, at) == size_in(sizes, id));
            assert(listed_bytes(songs, sizes, 0) == 0);
            assert(listed_bytes(songs, sizes, 1) == size_in(sizes, id));
        }
    }
}

proof fn walks_take_what_fits(gs: Seq<PinGroup>, sizes: Seq<SizeEntry>, ceiling: int, k: int)
    requires
        0 <= k <= gs.len() <= usize::MAX,
        0 <= ceiling <= u64::MAX,
        stars_are_single(gs),
        staked_bytes(sizes, all_claims(gs, gs.len() as int)) <= ceiling,
    ensures
        ({
            let w = walk(gs, sizes, ceiling, k);
            &&& w.resident.len() == k
            &&& w.claims == all_claims(gs, k)
            &&& w.spent == staked_bytes(sizes, w.claims)
            &&& w.over_by.len() == k && w.blocked_by.len() == k && w.held_back.len() == k
            &&& forall|s: int| 0 <= s < k ==> #[trigger] w.resident[s]
            &&& forall|s: int| 0 <= s < k ==> #[trigger] w.over_by[s] == 0
            &&& forall|s: int| 0 <= s < k ==> (#[trigger] w.blocked_by[s]) is None
            &&& forall|s: int| 0 <= s < k ==> !(#[trigger] w.held_back[s])
        }),
    decreases k,
{
    if k > 0 {
        let at = k - 1;
        walks_take_what_fits(gs, sizes, ceiling, at);
        let w = walk(gs, sizes, ceiling, at);
        let g = gs[at];
        totals_only_grow(gs, sizes, k);
        stars_are_part_of_the_rest(gs, sizes, at);
        stars_are_part_of_the_rest(gs, sizes, k);
        stars_are_natural(gs, sizes, at);
        stars_are_natural(gs, sizes, k);
        stakes_are_natural(sizes, all_claims(gs, at));
        weights_are_natural(g.songs@, sizes, fresh(g.songs@, w.claims));
        needs_are_natural(gs, sizes, at);
        let cost = charge(g, sizes, w.claims);
        assert(w.spent + weight(g.songs@, sizes, fresh(g.songs@, w.claims)) == staked_bytes(
            sizes,
            all_claims(gs, k),
        ));
        if g.tier != PinTier::Song {
            assert(star_need(gs, sizes, at) == 0);
            assert(stars_ahead(gs, sizes, at) == stars_ahead(gs, sizes, k));
            assert(reservation(gs, sizes, ceiling, at) <= stars_ahead(gs, sizes, at));
        }
        let n = walk(gs, sizes, ceiling, k);
        assert(n.resident == w.resident.push(true));
    }
}

proof fn stakes_are_natural(sizes: Seq<SizeEntry>, claims: Seq<Claim>)
    ensures
        0 <= staked_bytes(sizes, claims),
    decreases claims.len(),
{
    if claims.len() > 0 {
        stakes_are_natural(sizes, claims.drop_last());
        sizes_are_natural(sizes, claims.last().id@);
    }
}

/// Where everything fits, everything is held: the share set aside for loose starred songs
/// never refuses a group that there is room for, and no group is said to have missed anything
/// or to have lost to another. Each storable track counts once. A loose starred song is one
/// song, as every expansion makes it.
pub proof fn what_fits_is_held(
    pins: PinSet,
    entries: Seq<IndexEntry>,
    ceiling: u64,
    now_unix: u64,
    slot: int,
)
    requires
        ({
            let line = line_of(pins, entries, ceiling, now_unix);
            &&& 0 <= slot < line.groups.len()
            &&& stars_are_single(line.groups)
            &&& staked_bytes(
                line.sizes,
                all_claims(line.groups, line.groups.len() as int),
            ) <= ceiling
        }),
    ensures
        ({
            let w = line_of(pins, entries, ceiling, now_unix).walk;
            &&& w.resident[slot]
            &&& w.over_by[slot] == 0
            &&& w.blocked_by[slot] is None
            &&& !w.held_back[slot]
        }),
        forall|r: RankedGroup|
            #[trigger] line_of(pins, entries, ceiling, now_unix).reports(r, entries, now_unix, slot)
                ==> !(r.standing is Deferred) && r.over_by == 0 && r.blocked_by is None
                && !r.held_back_by_floor,
{
    order_is_a_permutation(pins, entries, now_unix);
    assert(pins.groups@.len() == pins.groups.len());
    let line = line_of(pins, entries, ceiling, now_unix);
    let gs = line.groups;
    walks_take_what_fits(gs, line.sizes, ceiling as int, gs.len() as int);
    assert(line.walk.resident[slot]);
    assert(line.walk.over_by[slot] == 0);
    assert(line.walk.blocked_by[slot] is None);
    assert(!line.walk.held_back[slot]);
    assert forall|r: RankedGroup| #[trigger]
        line.reports(r, entries, now_unix, slot) implies !(r.standing is Deferred) && r.over_by == 0
        && r.blocked_by is None && !r.held_back_by_floor by {
        let songs = gs[slot].songs@;
        assert(songs.len() == gs[slot].songs.len());
        walks_are_sound(gs, line.sizes, ceiling as int, gs.len() as int);
        picks_are_picked(songs, claimed_ids(line.walk.claims), songs.len() as int);
        if line.missing(slot).len() > 0 {
            let p = line.missing(slot)[0] as int;
            assert(picked(songs, claimed_ids(line.walk.claims), p));
            assert(claimed(line.walk.claims, songs[p].id@));
        }
    }
}

} // verus!
