//! What holds of every line drawn through a pin set.
use crate::budget::{capped, most};
use crate::entries::{cached, IndexEntry};
use crate::frontier::{
    carries, charge, claim_slot, claimed, claimed_ids, fresh, holds_any, line_of, places, rank_key,
    rank_order, rank_order_is_total, ranks_before, reservation, stakes, stars_ahead, walk,
    walk_step, Claim, RankKey, Walk,
};
use crate::model::Song;
use crate::names::storable;
use crate::plan::not_due;
use crate::pins::{PinGroup, PinSet};
use crate::score::{
    cold_among, cold_share, cold_share_is_a_share, cold_share_only_grows, cold_weight, lists,
    own_tracks, picked, picks, picks_are_picked, size_in, size_table, sizes_are_natural, tracks,
    weight, weights_are_natural, SizeEntry,
};
use crate::sorting::sorting_keeps_elements;
use crate::status::RankedGroup;
use vstd::prelude::*;

verus! {

/// Bytes of the ids in these claims.
pub open spec fn staked_bytes(sizes: Seq<SizeEntry>, claims: Seq<Claim>) -> int
    decreases claims.len(),
{
    if claims.len() == 0 {
        0
    } else {
        staked_bytes(sizes, claims.drop_last()) + size_in(sizes, claims.last().id@)
    }
}

/// A claim as it should be: of a storable track that a resident group lists, and that no
/// resident group before it lists.
pub open spec fn rightful(gs: Seq<PinGroup>, resident: Seq<bool>, c: Claim) -> bool {
    &&& c.slot < resident.len()
    &&& resident[c.slot as int]
    &&& storable(c.id@)
    &&& lists(gs[c.slot as int].songs@, c.id@)
    &&& forall|s: int|
        0 <= s < c.slot && #[trigger] resident[s] ==> !lists(gs[s].songs@, c.id@)
}

/// What holds of the walk at every slot: each track is claimed once and rightfully, a group
/// above the line holds its tracks whole, and the bytes above the line are those of the claims
/// and within the ceiling.
pub open spec fn sound_walk(
    gs: Seq<PinGroup>,
    sizes: Seq<SizeEntry>,
    ceiling: int,
    w: Walk,
    k: int,
) -> bool {
    &&& w.resident.len() == k
    &&& w.over_by.len() == k
    &&& w.blocked_by.len() == k
    &&& w.held_back.len() == k
    &&& forall|i: int| 0 <= i < w.claims.len() ==> rightful(gs, w.resident, #[trigger] w.claims[i])
    &&& forall|a: int, b: int|
        0 <= a < b < w.claims.len() ==> (#[trigger] w.claims[a]).id@ != (#[trigger] w.claims[b]).id@
    &&& forall|s: int, i: int|
        0 <= s < k && w.resident[s] && 0 <= i < gs[s].songs@.len() && storable(
            (#[trigger] gs[s].songs@[i]).id@,
        ) ==> claimed(w.claims, gs[s].songs@[i].id@)
    &&& w.spent == capped(staked_bytes(sizes, w.claims))
    &&& 0 <= staked_bytes(sizes, w.claims)
    &&& w.spent <= ceiling
}

/// Bytes under two lots of claims add up.
pub proof fn staked_bytes_add(sizes: Seq<SizeEntry>, a: Seq<Claim>, b: Seq<Claim>)
    ensures
        staked_bytes(sizes, a + b) == staked_bytes(sizes, a) + staked_bytes(sizes, b),
    decreases b.len(),
{
    if b.len() > 0 {
        staked_bytes_add(sizes, a, b.drop_last());
        assert((a + b).drop_last() =~= a + b.drop_last());
    } else {
        assert(a + b =~= a);
    }
}

/// What a group claims weighs what the claimed tracks weigh.
pub proof fn stakes_weigh_their_tracks(
    songs: Seq<Song>,
    sizes: Seq<SizeEntry>,
    at: Seq<usize>,
    slot: usize,
)
    ensures
        staked_bytes(sizes, stakes(songs, at, slot)) == weight(songs, sizes, at),
    decreases at.len(),
{
    if at.len() > 0 {
        stakes_weigh_their_tracks(songs, sizes, at.drop_last(), slot);
        assert(stakes(songs, at, slot).drop_last() =~= stakes(songs, at.drop_last(), slot));
    }
}

/// A group's own tracks of an id stand for every occurrence of it.
pub proof fn picks_cover(songs: Seq<Song>, skip: Set<Seq<char>>, i: int) -> (k: int)
    requires
        songs.len() <= usize::MAX,
        0 <= i < songs.len(),
        storable(songs[i].id@),
        !skip.contains(songs[i].id@),
    ensures
        0 <= k < tracks(songs, skip).len(),
        songs[tracks(songs, skip)[k] as int].id@ == songs[i].id@,
    decreases i,
{
    let ps = tracks(songs, skip);
    picks_are_picked(songs, skip, songs.len() as int);
    if lists(songs.take(i), songs[i].id@) {
        let front = songs.take(i);
        let j = choose|j: int| 0 <= j < front.len() && (#[trigger] front[j]).id@ == songs[i].id@;
        assert(songs[j].id@ == songs[i].id@);
        picks_cover(songs, skip, j)
    } else {
        assert(picked(songs, skip, i));
        assert(ps.contains(i as usize));
        choose|k: int| 0 <= k < ps.len() && ps[k] == i as usize
    }
}

proof fn step_is_sound(
    gs: Seq<PinGroup>,
    sizes: Seq<SizeEntry>,
    ceiling: int,
    w: Walk,
    k: int,
)
    requires
        0 <= k < gs.len() <= usize::MAX,
        0 <= ceiling <= u64::MAX,
        sound_walk(gs, sizes, ceiling, w, k),
    ensures
        sound_walk(gs, sizes, ceiling, walk_step(gs, sizes, ceiling, w), k + 1),
{
    let g = gs[k];
    let songs = g.songs@;
    assert(songs.len() == g.songs.len());
    let n = walk_step(gs, sizes, ceiling, w);
    let skip = claimed_ids(w.claims);
    let at = fresh(songs, w.claims);
    let cost = charge(g, sizes, w.claims);
    let budget = most(0, ceiling - reservation(gs, sizes, ceiling, k));
    picks_are_picked(songs, skip, songs.len() as int);
    weights_are_natural(songs, sizes, at);
    if capped(w.spent + cost) <= budget {
        let more = stakes(songs, at, k as usize);
        assert(n.claims == w.claims + more);
        staked_bytes_add(sizes, w.claims, more);
        stakes_weigh_their_tracks(songs, sizes, at, k as usize);
        reservations_are_natural(gs, sizes, ceiling, k);
        assert forall|s: int| 0 <= s < k implies #[trigger] n.resident[s] == w.resident[s] by {}
        assert forall|i: int| 0 <= i < n.claims.len() implies rightful(
            gs,
            n.resident,
            #[trigger] n.claims[i],
        ) by {
            if i < w.claims.len() {
                assert(n.claims[i] == w.claims[i]);
                assert(rightful(gs, w.resident, w.claims[i]));
                assert forall|s: int|
                    0 <= s < n.claims[i].slot && #[trigger] n.resident[s] implies !lists(
                    gs[s].songs@,
                    n.claims[i].id@,
                ) by {
                    assert(w.resident[s]);
                }
            } else {
                let j = i - w.claims.len();
                let p = at[j];
                assert(n.claims[i] == more[j]);
                assert(picked(songs, skip, p as int));
                assert(songs[p as int].id@ == n.claims[i].id@);
                assert(!claimed(w.claims, n.claims[i].id@));
                assert forall|s: int|
                    0 <= s < n.claims[i].slot && #[trigger] n.resident[s] implies !lists(
                    gs[s].songs@,
                    n.claims[i].id@,
                ) by {
                    assert(w.resident[s]);
                    if lists(gs[s].songs@, n.claims[i].id@) {
                        let m = choose|m: int|
                            0 <= m < gs[s].songs@.len() && (#[trigger] gs[s].songs@[m]).id@
                                == n.claims[i].id@;
                        assert(claimed(w.claims, gs[s].songs@[m].id@));
                    }
                }
            }
        }
        assert forall|a: int, b: int| 0 <= a < b < n.claims.len() implies (
        #[trigger] n.claims[a]).id@ != (#[trigger] n.claims[b]).id@ by {
            let m = w.claims.len() as int;
            if b < m {
                assert(n.claims[a] == w.claims[a] && n.claims[b] == w.claims[b]);
            } else if a < m {
                let p = at[b - m];
                assert(n.claims[b] == more[b - m]);
                assert(picked(songs, skip, p as int));
                assert(n.claims[a] == w.claims[a]);
                assert(!claimed(w.claims, songs[p as int].id@));
            } else {
                let p = at[a - m];
                let q = at[b - m];
                assert(n.claims[a] == more[a - m] && n.claims[b] == more[b - m]);
                assert(p < q);
                assert(picked(songs, skip, q as int));
                assert(songs.take(q as int)[p as int] == songs[p as int]);
            }
        }
        assert forall|s: int, i: int|
            0 <= s < k + 1 && n.resident[s] && 0 <= i < gs[s].songs@.len() && storable(
                (#[trigger] gs[s].songs@[i]).id@,
            ) implies claimed(n.claims, gs[s].songs@[i].id@) by {
            let id = gs[s].songs@[i].id@;
            if s < k {
                assert(w.resident[s]);
                assert(claimed(w.claims, id));
            }
            if claimed(w.claims, id) {
                let m = choose|m: int| 0 <= m < w.claims.len() && (#[trigger] w.claims[m]).id@ == id;
                assert(n.claims[m].id@ == id);
            } else {
                let j = picks_cover(songs, skip, i);
                assert(n.claims[w.claims.len() + j].id@ == id);
            }
        }
    } else {
        assert forall|s: int| 0 <= s < k implies #[trigger] n.resident[s] == w.resident[s] by {}
        assert forall|i: int| 0 <= i < n.claims.len() implies rightful(
            gs,
            n.resident,
            #[trigger] n.claims[i],
        ) by {
            assert(rightful(gs, w.resident, w.claims[i]));
            assert forall|s: int|
                0 <= s < n.claims[i].slot && #[trigger] n.resident[s] implies !lists(
                gs[s].songs@,
                n.claims[i].id@,
            ) by {
                assert(w.resident[s]);
            }
        }
        assert forall|s: int, i: int|
            0 <= s < k + 1 && n.resident[s] && 0 <= i < gs[s].songs@.len() && storable(
                (#[trigger] gs[s].songs@[i]).id@,
            ) implies claimed(n.claims, gs[s].songs@[i].id@) by {
            assert(s < k);
            assert(w.resident[s]);
        }
    }
}

/// A listing never weighs less than nothing.
pub proof fn listed_bytes_are_natural(songs: Seq<Song>, sizes: Seq<SizeEntry>, n: int)
    ensures
        0 <= crate::frontier::listed_bytes(songs, sizes, n),
    decreases n,
{
    if n > 0 {
        listed_bytes_are_natural(songs, sizes, n - 1);
        sizes_are_natural(sizes, songs[n - 1].id@);
    }
}

/// What the loose starred songs ahead need is never less than nothing.
pub proof fn stars_are_natural(gs: Seq<PinGroup>, sizes: Seq<SizeEntry>, slot: int)
    ensures
        0 <= stars_ahead(gs, sizes, slot),
    decreases gs.len() - slot,
{
    if slot < gs.len() {
        stars_are_natural(gs, sizes, slot + 1);
        listed_bytes_are_natural(gs[slot].songs@, sizes, gs[slot].songs@.len() as int);
    }
}

proof fn reservations_are_natural(
    gs: Seq<PinGroup>,
    sizes: Seq<SizeEntry>,
    ceiling: int,
    slot: int,
)
    requires
        0 <= ceiling,
    ensures
        0 <= reservation(gs, sizes, ceiling, slot),
{
    stars_are_natural(gs, sizes, slot);
}

/// The walk is sound at every slot.
pub proof fn walks_are_sound(gs: Seq<PinGroup>, sizes: Seq<SizeEntry>, ceiling: int, k: int)
    requires
        0 <= k <= gs.len() <= usize::MAX,
        0 <= ceiling <= u64::MAX,
    ensures
        sound_walk(gs, sizes, ceiling, walk(gs, sizes, ceiling, k), k),
    decreases k,
{
    if k > 0 {
        walks_are_sound(gs, sizes, ceiling, k - 1);
        step_is_sound(gs, sizes, ceiling, walk(gs, sizes, ceiling, k - 1), k - 1);
    }
}

/// What the walk decided at a slot it never takes back.
proof fn walks_only_grow(gs: Seq<PinGroup>, sizes: Seq<SizeEntry>, ceiling: int, k: int, n: int)
    requires
        0 <= k <= n <= gs.len() <= usize::MAX,
        0 <= ceiling <= u64::MAX,
    ensures
        ({
            let a = walk(gs, sizes, ceiling, k);
            let b = walk(gs, sizes, ceiling, n);
            &&& a.claims.len() <= b.claims.len()
            &&& b.claims.take(a.claims.len() as int) == a.claims
            &&& b.resident.take(k) == a.resident
            &&& forall|i: int|
                a.claims.len() <= i < b.claims.len() ==> (#[trigger] b.claims[i]).slot >= k
        }),
    decreases n - k,
{
    let a = walk(gs, sizes, ceiling, k);
    walks_are_sound(gs, sizes, ceiling, k);
    if k < n {
        walks_only_grow(gs, sizes, ceiling, k, n - 1);
        walks_are_sound(gs, sizes, ceiling, n - 1);
        let p = walk(gs, sizes, ceiling, n - 1);
        let b = walk(gs, sizes, ceiling, n);
        assert(b.claims.take(p.claims.len() as int) =~= p.claims);
        assert(b.claims.take(a.claims.len() as int) =~= a.claims) by {
            assert forall|i: int| 0 <= i < a.claims.len() implies b.claims[i] == a.claims[i] by {
                assert(p.claims.take(a.claims.len() as int)[i] == p.claims[i]);
                assert(b.claims.take(p.claims.len() as int)[i] == b.claims[i]);
            }
        }
        assert(b.resident.take(k) =~= a.resident) by {
            assert forall|i: int| 0 <= i < k implies b.resident[i] == a.resident[i] by {
                assert(p.resident.take(k)[i] == p.resident[i]);
            }
        }
        assert forall|i: int| a.claims.len() <= i < b.claims.len() implies (
        #[trigger] b.claims[i]).slot >= k by {
            if i < p.claims.len() {
                assert(b.claims.take(p.claims.len() as int)[i] == b.claims[i]);
                assert(p.claims[i].slot >= k);
            }
        }
    } else {
        assert(a.claims.take(a.claims.len() as int) =~= a.claims);
        assert(a.resident.take(k) =~= a.resident);
    }
}

/// The slot of an id that is claimed early is not changed by later claims.
pub proof fn early_claims_stand(a: Seq<Claim>, b: Seq<Claim>, id: Seq<char>)
    requires
        a.len() <= b.len(),
        b.take(a.len() as int) == a,
    ensures
        claimed(a, id) ==> claim_slot(b, id) == claim_slot(a, id),
        claim_slot(b, id) is Some <==> claimed(b, id),
        claim_slot(b, id) is Some ==> exists|k: int|
            0 <= k < b.len() && (#[trigger] b[k]).id@ == id && b[k].slot == claim_slot(b, id)->0,
    decreases b.len(),
{
    if b.len() > 0 {
        if a.len() > 0 {
            assert(b.take(a.len() as int)[0] == b[0]);
            assert(b.drop_first().take(a.drop_first().len() as int) =~= a.drop_first());
            early_claims_stand(a.drop_first(), b.drop_first(), id);
            if claimed(a, id) && a[0].id@ != id {
                let m = choose|m: int| 0 <= m < a.len() && (#[trigger] a[m]).id@ == id;
                assert(a.drop_first()[m - 1].id@ == id);
            }
        } else {
            assert(b.drop_first().take(0) =~= a);
            early_claims_stand(a, b.drop_first(), id);
        }
        let t = b.drop_first();
        if b[0].id@ == id {
            assert(b[0].slot == claim_slot(b, id)->0);
        } else {
            if claimed(t, id) {
                let m = choose|m: int|
                    0 <= m < t.len() && (#[trigger] t[m]).id@ == id && t[m].slot == claim_slot(
                        t,
                        id,
                    )->0;
                assert(b[m + 1] == t[m]);
            }
            if claimed(b, id) {
                let m = choose|m: int| 0 <= m < b.len() && (#[trigger] b[m]).id@ == id;
                assert(t[m - 1].id@ == id);
            }
        }
    }
}

/// Every place of a line is a place of its pin set, each once.
pub proof fn order_is_a_permutation(pins: PinSet, entries: Seq<IndexEntry>, now_unix: u64)
    ensures
        ({
            let sizes = size_table(pins.all_songs(), entries);
            let leq = rank_order(pins.groups@, entries, sizes, now_unix);
            let order = places(pins.groups@.len()).sort_by(leq);
            &&& order.len() == pins.groups@.len()
            &&& order.no_duplicates()
            &&& forall|k: int| 0 <= k < order.len() ==> (#[trigger] order[k]) < pins.groups@.len()
            &&& forall|i: int|
                0 <= i < pins.groups@.len() ==> order.contains(#[trigger] (i as usize))
            &&& forall|a: int, b: int|
                0 <= a < b < order.len() ==> leq(#[trigger] order[a], #[trigger] order[b])
        }),
{
    assert(pins.groups@.len() == pins.groups.len());
    let sizes = size_table(pins.all_songs(), entries);
    let leq = rank_order(pins.groups@, entries, sizes, now_unix);
    let start = places(pins.groups@.len());
    let order = start.sort_by(leq);
    rank_order_is_total(pins.groups@, entries, sizes, now_unix);
    sorting_keeps_elements(start, leq);
    assert(start.no_duplicates());
    assert forall|k: int| 0 <= k < order.len() implies (#[trigger] order[k])
        < pins.groups@.len() by {
        assert(order.contains(order[k]));
        assert(start.contains(order[k]));
    }
    assert forall|i: int| 0 <= i < pins.groups@.len() implies order.contains(
        #[trigger] (i as usize),
    ) by {
        assert(start[i] == i as usize);
        assert(start.contains(i as usize));
    }
}

/// The line's groups are those of the pin set, each once, and any two stand as their keys
/// rank: hand-picked before an artist's fan-out, then the more neglected, then what is on
/// disk, then the emphasis, then the place in the pin set.
pub proof fn lines_follow_the_rule(
    pins: PinSet,
    entries: Seq<IndexEntry>,
    ceiling: u64,
    now_unix: u64,
    a: int,
    b: int,
)
    requires
        0 <= a < b < pins.groups@.len(),
    ensures
        ({
            let line = line_of(pins, entries, ceiling, now_unix);
            &&& line.order.len() == pins.groups@.len()
            &&& line.order.no_duplicates()
            &&& line.groups[a] == pins.groups@[line.order[a] as int]
            &&& ranks_before(
                rank_key(pins.groups@, entries, line.sizes, now_unix, line.order[a] as int),
                rank_key(pins.groups@, entries, line.sizes, now_unix, line.order[b] as int),
            )
            &&& line.groups[a].tier is Artist ==> line.groups[b].tier is Artist
        }),
{
    order_is_a_permutation(pins, entries, now_unix);
    let line = line_of(pins, entries, ceiling, now_unix);
    let leq = rank_order(pins.groups@, entries, line.sizes, now_unix);
    let x = line.order[a];
    let y = line.order[b];
    assert(leq(x, y));
    assert(x != y);
    let kx = rank_key(pins.groups@, entries, line.sizes, now_unix, x as int);
    let ky = rank_key(pins.groups@, entries, line.sizes, now_unix, y as int);
    assert(!ranks_before(ky, kx));
    assert(kx.position != ky.position);
}

/// Incumbency: of two groups of one class, the one on disk gives way only to a strictly
/// greater neglect. A tie moves no bytes.
pub proof fn a_held_group_yields_only_to_greater_neglect(held: RankKey, other: RankKey)
    requires
        held.class == other.class,
        held.held,
        !other.held,
        other.decile <= held.decile,
    ensures
        ranks_before(held, other),
{
}

/// How often the lead between two groups changes hands over a run of passes, given by the two
/// keys of each pass.
pub open spec fn lead_changes(passes: Seq<(RankKey, RankKey)>) -> int
    decreases passes.len(),
{
    if passes.len() <= 1 {
        0
    } else {
        let now = passes.last();
        let was = passes[passes.len() - 2];
        lead_changes(passes.drop_last()) + if ranks_before(now.0, now.1) != ranks_before(
            was.0,
            was.1,
        ) {
            1int
        } else {
            0
        }
    }
}

/// A life of two groups of one class that cannot both be held: neglect is counted in tenths and
/// never falls, and what led one pass, and only that, is on disk at the next.
pub open spec fn contested(passes: Seq<(RankKey, RankKey)>) -> bool {
    &&& forall|t: int| 0 <= t < passes.len() ==> (#[trigger] passes[t]).0.class == passes[t].1.class
    &&& forall|t: int|
        0 <= t < passes.len() ==> 0 <= (#[trigger] passes[t]).0.decile <= 10 && 0
            <= passes[t].1.decile <= 10
    &&& forall|s: int, t: int|
        0 <= s < t < passes.len() ==> (#[trigger] passes[s]).0.decile <= (
        #[trigger] passes[t]).0.decile && passes[s].1.decile <= passes[t].1.decile
    &&& forall|s: int, t: int|
        0 <= s && t == s + 1 && t < passes.len() ==> (#[trigger] passes[t]).0.held == ranks_before(
            (#[trigger] passes[s]).0,
            passes[s].1,
        ) && passes[t].1.held == !passes[t].0.held
}

proof fn leads_change_with_neglect(passes: Seq<(RankKey, RankKey)>)
    requires
        passes.len() > 0,
        contested(passes),
    ensures
        0 <= lead_changes(passes) <= (if ranks_before(passes.last().0, passes.last().1) {
            passes.last().0.decile
        } else {
            passes.last().1.decile
        }),
    decreases passes.len(),
{
    let n = passes.len() as int;
    if n > 1 {
        let rest = passes.drop_last();
        assert(rest.last() == passes[n - 2]);
        assert forall|s: int, t: int|
            0 <= s && t == s + 1 && t < rest.len() implies (#[trigger] rest[t]).0.held
            == ranks_before((#[trigger] rest[s]).0, rest[s].1) && rest[t].1.held
            == !rest[t].0.held by {
            assert(rest[s] == passes[s] && rest[t] == passes[t]);
        }
        assert forall|s: int, t: int| 0 <= s < t < rest.len() implies (
        #[trigger] rest[s]).0.decile <= (#[trigger] rest[t]).0.decile && rest[s].1.decile
            <= rest[t].1.decile by {
            assert(rest[s] == passes[s] && rest[t] == passes[t]);
        }
        leads_change_with_neglect(rest);
        assert(passes[n - 2].0.decile <= passes[n - 1].0.decile);
    } else {
        assert(passes[0] == passes.last());
    }
}

/// Stability: the lead between two groups of one class changes hands at most ten times in
/// their lives, however their tracks age against each other.
pub proof fn leads_change_at_most_ten_times(passes: Seq<(RankKey, RankKey)>)
    requires
        contested(passes),
    ensures
        lead_changes(passes) <= 10,
{
    if passes.len() > 0 {
        leads_change_with_neglect(passes);
        assert(passes[passes.len() - 1] == passes.last());
    }
}

/// The keys of two groups of a pin set over a run of passes, each with what is on disk and the
/// date.
pub open spec fn keys_over(
    pins: PinSet,
    passes: Seq<(Seq<IndexEntry>, u64)>,
    a: int,
    b: int,
) -> Seq<(RankKey, RankKey)> {
    Seq::new(
        passes.len(),
        |t: int|
            {
                let (entries, now) = passes[t];
                let sizes = size_table(pins.all_songs(), entries);
                (
                    rank_key(pins.groups@, entries, sizes, now, a),
                    rank_key(pins.groups@, entries, sizes, now, b),
                )
            },
    )
}

/// The same of two groups of a pin set that nobody plays. The passes come in the order of their
/// dates, what led one and only that is on disk at the next, and no track's cost changes in
/// between, as where the server reports every size.
pub proof fn rivals_swap_at_most_ten_times(
    pins: PinSet,
    passes: Seq<(Seq<IndexEntry>, u64)>,
    a: int,
    b: int,
)
    requires
        0 <= a < pins.groups@.len(),
        0 <= b < pins.groups@.len(),
        pins.groups@[a].tier.class_of() == pins.groups@[b].tier.class_of(),
        forall|s: int, t: int|
            0 <= s < t < passes.len() ==> (#[trigger] passes[s]).1 <= (#[trigger] passes[t]).1
                && size_table(pins.all_songs(), passes[s].0) == size_table(
                pins.all_songs(),
                passes[t].0,
            ),
        ({
            let keys = keys_over(pins, passes, a, b);
            forall|s: int, t: int|
                0 <= s && t == s + 1 && t < passes.len() ==> (#[trigger] keys[t]).0.held
                    == ranks_before((#[trigger] keys[s]).0, keys[s].1) && keys[t].1.held
                    == !keys[t].0.held
        }),
    ensures
        lead_changes(keys_over(pins, passes, a, b)) <= 10,
{
    let keys = keys_over(pins, passes, a, b);
    let x = pins.groups@[a].songs@;
    let y = pins.groups@[b].songs@;
    assert forall|t: int| 0 <= t < keys.len() implies 0 <= (#[trigger] keys[t]).0.decile <= 10 && 0
        <= keys[t].1.decile <= 10 by {
        let sizes = size_table(pins.all_songs(), passes[t].0);
        cold_share_is_a_share(x, sizes, passes[t].1);
        cold_share_is_a_share(y, sizes, passes[t].1);
    }
    assert forall|s: int, t: int| 0 <= s < t < keys.len() implies (#[trigger] keys[s]).0.decile <= (
    #[trigger] keys[t]).0.decile && keys[s].1.decile <= keys[t].1.decile by {
        assert(passes[s].1 <= passes[t].1);
        let sizes = size_table(pins.all_songs(), passes[s].0);
        cold_share_only_grows(x, sizes, passes[s].1, passes[t].1);
        cold_share_only_grows(y, sizes, passes[s].1, passes[t].1);
    }
    assert(contested(keys));
    leads_change_at_most_ten_times(keys);
}

/// What the line keeps fits under the ceiling: each track is charged once, to the first
/// resident group that lists it.
pub proof fn lines_fit_the_ceiling(
    pins: PinSet,
    entries: Seq<IndexEntry>,
    ceiling: u64,
    now_unix: u64,
)
    ensures
        ({
            let line = line_of(pins, entries, ceiling, now_unix);
            &&& sound_walk(
                line.groups,
                line.sizes,
                ceiling as int,
                line.walk,
                line.groups.len() as int,
            )
            &&& staked_bytes(line.sizes, line.walk.claims) <= ceiling || ceiling == u64::MAX
        }),
{
    order_is_a_permutation(pins, entries, now_unix);
    assert(pins.groups@.len() == pins.groups.len());
    let line = line_of(pins, entries, ceiling, now_unix);
    walks_are_sound(line.groups, line.sizes, ceiling as int, line.groups.len() as int);
}

/// Whole or absent: a group above the line has every one of its storable tracks held, by
/// itself or by a resident group before it.
pub proof fn groups_are_held_whole(
    pins: PinSet,
    entries: Seq<IndexEntry>,
    ceiling: u64,
    now_unix: u64,
    slot: int,
    i: int,
)
    requires
        0 <= slot < pins.groups@.len(),
        ({
            let line = line_of(pins, entries, ceiling, now_unix);
            &&& line.walk.resident[slot]
            &&& 0 <= i < line.groups[slot].songs@.len()
            &&& storable(line.groups[slot].songs@[i].id@)
        }),
    ensures
        ({
            let line = line_of(pins, entries, ceiling, now_unix);
            let id = line.groups[slot].songs@[i].id@;
            &&& line.standing(id).0 is Resident
            &&& line.standing(id).1 <= slot
            &&& line.walk.resident[line.standing(id).1]
        }),
{
    order_is_a_permutation(pins, entries, now_unix);
    assert(pins.groups@.len() == pins.groups.len());
    let line = line_of(pins, entries, ceiling, now_unix);
    let gs = line.groups;
    walks_are_sound(gs, line.sizes, ceiling as int, gs.len() as int);
    let id = gs[slot].songs@[i].id@;
    assert(claimed(line.walk.claims, id));
    assert(line.walk.claims.take(0) =~= Seq::<Claim>::empty());
    early_claims_stand(Seq::empty(), line.walk.claims, id);
    let k = choose|k: int|
        0 <= k < line.walk.claims.len() && (#[trigger] line.walk.claims[k]).id@ == id
            && line.walk.claims[k].slot == claim_slot(line.walk.claims, id)->0;
    assert(rightful(gs, line.walk.resident, line.walk.claims[k]));
    if line.walk.claims[k].slot > slot {
        assert(lists(gs[slot].songs@, id));
        assert(line.walk.resident[slot]);
    }
}

/// A group without a track of its own is the last thing a hand-picked gesture asks for: no
/// loose starred song comes after it.
proof fn empty_groups_come_after_stars(
    pins: PinSet,
    entries: Seq<IndexEntry>,
    ceiling: u64,
    now_unix: u64,
    a: int,
    b: int,
)
    requires
        0 <= a < b < pins.groups@.len(),
        own_tracks(line_of(pins, entries, ceiling, now_unix).groups[a].songs@).len() == 0,
        !(line_of(pins, entries, ceiling, now_unix).groups[a].tier is Song),
    ensures
        !(line_of(pins, entries, ceiling, now_unix).groups[b].tier is Song),
{
    lines_follow_the_rule(pins, entries, ceiling, now_unix, a, b);
    order_is_a_permutation(pins, entries, now_unix);
    let line = line_of(pins, entries, ceiling, now_unix);
    let g = line.groups[a];
    let songs = g.songs@;
    assert(songs.len() == g.songs.len());
    let own = own_tracks(songs);
    assert(own =~= Seq::<usize>::empty());
    assert(weight(songs, line.sizes, own) == 0);
    let cold = cold_among(songs, own, now_unix);
    reveal(Seq::filter);
    assert(cold.len() == 0);
    assert(cold_weight(songs, line.sizes, now_unix) == 0);
    assert(cold_share(songs, line.sizes, now_unix) == 0);
    if holds_any(songs, entries) {
        let i = choose|i: int|
            0 <= i < songs.len() && storable((#[trigger] songs[i]).id@) && cached(
                entries,
                songs[i].id@,
            );
        let k = picks_cover(songs, Set::empty(), i);
        assert(0 <= k < own.len());
    }
    assert(line.groups[b] == pins.groups@[line.order[b] as int]);
    cold_share_is_a_share(line.groups[b].songs@, line.sizes, now_unix);
}

proof fn no_stars_no_reservation(gs: Seq<PinGroup>, sizes: Seq<SizeEntry>, slot: int)
    requires
        0 <= slot,
        forall|k: int| slot <= k < gs.len() ==> !((#[trigger] gs[k]).tier is Song),
    ensures
        stars_ahead(gs, sizes, slot) == 0,
    decreases gs.len() - slot,
{
    if slot < gs.len() {
        assert(!(gs[slot].tier is Song));
        no_stars_no_reservation(gs, sizes, slot + 1);
    }
}

/// A group without a track of its own is always above the line: it costs nothing, and nothing
/// is kept back from it.
proof fn empty_groups_are_resident(
    pins: PinSet,
    entries: Seq<IndexEntry>,
    ceiling: u64,
    now_unix: u64,
    slot: int,
)
    requires
        0 <= slot < pins.groups@.len(),
        own_tracks(line_of(pins, entries, ceiling, now_unix).groups[slot].songs@).len() == 0,
    ensures
        line_of(pins, entries, ceiling, now_unix).walk.resident[slot],
{
    order_is_a_permutation(pins, entries, now_unix);
    assert(pins.groups@.len() == pins.groups.len());
    let line = line_of(pins, entries, ceiling, now_unix);
    let gs = line.groups;
    let c = ceiling as int;
    let n = gs.len() as int;
    let songs = gs[slot].songs@;
    assert(songs.len() == gs[slot].songs.len());
    walks_are_sound(gs, line.sizes, c, slot);
    walks_are_sound(gs, line.sizes, c, n);
    walks_only_grow(gs, line.sizes, c, slot + 1, n);
    let w = walk(gs, line.sizes, c, slot);
    let v = walk(gs, line.sizes, c, slot + 1);
    let at = fresh(songs, w.claims);
    picks_are_picked(songs, claimed_ids(w.claims), songs.len() as int);
    picks_are_picked(songs, Set::empty(), songs.len() as int);
    if at.len() > 0 {
        assert(picked(songs, claimed_ids(w.claims), at[0] as int));
        assert(picked(songs, Set::empty(), at[0] as int));
        assert(own_tracks(songs).contains(at[0] as int as usize));
    }
    assert(weight(songs, line.sizes, at) == 0);
    if !(gs[slot].tier is Song) {
        assert forall|k: int| slot <= k < gs.len() implies !((#[trigger] gs[k]).tier is Song) by {
            if slot < k {
                empty_groups_come_after_stars(pins, entries, ceiling, now_unix, slot, k);
            }
        }
        no_stars_no_reservation(gs, line.sizes, slot);
    }
    assert(reservation(gs, line.sizes, c, slot) == 0);
    assert(v == walk_step(gs, line.sizes, c, w));
    assert(v.resident[slot]);
    assert(line.walk.resident.take(slot + 1)[slot] == line.walk.resident[slot]);
}

/// A reported shortfall is honest: a group is deferred exactly where it misses tracks, and what
/// is resident or covered misses nothing.
pub proof fn reports_are_honest(
    pins: PinSet,
    entries: Seq<IndexEntry>,
    ceiling: u64,
    now_unix: u64,
    r: RankedGroup,
    slot: int,
)
    requires
        0 <= slot < pins.groups@.len(),
        line_of(pins, entries, ceiling, now_unix).reports(r, entries, now_unix, slot),
    ensures
        r.standing is Deferred <==> r.missing_tracks > 0,
        !(r.standing is Deferred) ==> r.missing_bytes == 0,
        r.standing is Resident ==> line_of(pins, entries, ceiling, now_unix).walk.resident[slot],
        r.standing is Covered ==> r.tracks > 0,
{
    order_is_a_permutation(pins, entries, now_unix);
    assert(pins.groups@.len() == pins.groups.len());
    let line = line_of(pins, entries, ceiling, now_unix);
    let gs = line.groups;
    let songs = gs[slot].songs@;
    assert(songs.len() == gs[slot].songs.len());
    walks_are_sound(gs, line.sizes, ceiling as int, gs.len() as int);
    let skip = claimed_ids(line.walk.claims);
    picks_are_picked(songs, skip, songs.len() as int);
    if carries(line.walk.claims, slot) {
        let k = choose|k: int|
            0 <= k < line.walk.claims.len() && (#[trigger] line.walk.claims[k]).slot == slot;
        assert(rightful(gs, line.walk.resident, line.walk.claims[k]));
        assert(line.walk.resident[slot]);
    }
    if line.walk.resident[slot] && line.missing(slot).len() > 0 {
        let p = line.missing(slot)[0];
        assert(picked(songs, skip, p as int));
        assert(claimed(line.walk.claims, songs[p as int].id@));
    }
    if own_tracks(songs).len() == 0 {
        empty_groups_are_resident(pins, entries, ceiling, now_unix, slot);
    }
}

/// Skipping more weighs less.
proof fn fewer_picks_weigh_less(
    songs: Seq<Song>,
    sizes: Seq<SizeEntry>,
    more: Set<Seq<char>>,
    fewer: Set<Seq<char>>,
    n: int,
)
    requires
        0 <= n <= songs.len() <= usize::MAX,
        forall|i: int| 0 <= i < n && #[trigger] picked(songs, fewer, i) ==> picked(songs, more, i),
    ensures
        weight(songs, sizes, picks(songs, fewer, n)) <= weight(songs, sizes, picks(songs, more, n)),
    decreases n,
{
    if n > 0 {
        fewer_picks_weigh_less(songs, sizes, more, fewer, n - 1);
        let a = picks(songs, fewer, n - 1);
        let b = picks(songs, more, n - 1);
        assert(a.push((n - 1) as usize).drop_last() =~= a);
        assert(b.push((n - 1) as usize).drop_last() =~= b);
        sizes_are_natural(sizes, songs[n - 1].id@);
        if picked(songs, fewer, n - 1) {
            assert(picked(songs, more, n - 1));
        }
    }
}

/// What a group above the line still has to fetch weighs no more than it was charged, which
/// fits under the ceiling.
pub proof fn outstanding_fits_the_ceiling(
    pins: PinSet,
    entries: Seq<IndexEntry>,
    ceiling: u64,
    now_unix: u64,
    slot: int,
)
    requires
        0 <= slot < pins.groups@.len(),
        ceiling < u64::MAX,
        line_of(pins, entries, ceiling, now_unix).walk.resident[slot],
    ensures
        ({
            let line = line_of(pins, entries, ceiling, now_unix);
            let songs = line.groups[slot].songs@;
            0 <= weight(
                songs,
                line.sizes,
                tracks(songs, not_due(line.walk.claims, entries, slot)),
            ) <= ceiling
        }),
{
    order_is_a_permutation(pins, entries, now_unix);
    assert(pins.groups@.len() == pins.groups.len());
    let line = line_of(pins, entries, ceiling, now_unix);
    let gs = line.groups;
    let songs = gs[slot].songs@;
    assert(songs.len() == gs[slot].songs.len());
    let c = ceiling as int;
    let n = gs.len() as int;
    walks_are_sound(gs, line.sizes, c, slot);
    walks_are_sound(gs, line.sizes, c, n);
    walks_only_grow(gs, line.sizes, c, slot, n);
    walks_only_grow(gs, line.sizes, c, slot + 1, n);
    let w = walk(gs, line.sizes, c, slot);
    let v = walk(gs, line.sizes, c, slot + 1);
    assert(v == walk_step(gs, line.sizes, c, w));
    assert(line.walk.resident.take(slot + 1)[slot] == line.walk.resident[slot]);
    assert(v.resident[slot]);
    reservations_are_natural(gs, line.sizes, c, slot);
    let skip = not_due(line.walk.claims, entries, slot);
    let held = claimed_ids(w.claims);
    assert forall|i: int| 0 <= i < songs.len() && #[trigger] picked(songs, skip, i) implies picked(
        songs,
        held,
        i,
    ) by {
        let id = songs[i].id@;
        assert(!skip.contains(id));
        if claimed(w.claims, id) {
            early_claims_stand(w.claims, line.walk.claims, id);
            assert(w.claims.take(w.claims.len() as int) =~= w.claims);
            early_claims_stand(w.claims, w.claims, id);
            let k = choose|k: int|
                0 <= k < w.claims.len() && (#[trigger] w.claims[k]).id@ == id && w.claims[k].slot
                    == claim_slot(w.claims, id)->0;
            assert(rightful(gs, w.resident, w.claims[k]));
        }
    }
    fewer_picks_weigh_less(songs, line.sizes, held, skip, songs.len() as int);
    weights_are_natural(songs, line.sizes, tracks(songs, skip));
    weights_are_natural(songs, line.sizes, fresh(songs, w.claims));
}

} // verus!
