//! What decides on which side of the line a group and its tracks come to stand.
use crate::budget::star_share;
use crate::entries::IndexEntry;
use crate::frontier::{
    charge, claim_slot, claimed, deferred_slot, fresh, line_of, listed_bytes, ranks_before,
    reservation, star_need, stars_ahead, walk, walk_step, wanted_above, Claim, RankKey,
};
use crate::frontier_laws::{
    early_claims_stand, order_is_a_permutation, rightful, staked_bytes, stars_are_natural,
    walks_are_sound,
};
use crate::names::storable;
use crate::pins::{PinGroup, PinSet};
use crate::score::{lists, weights_are_natural, SizeEntry};
use vstd::prelude::*;

verus! {

/// Of two groups the one hand-picked goes first; of one class the more neglected; of those the
/// one on disk; then by emphasis; then as the pin set has them. Each speaks only where all
/// before it are equal.
pub proof fn ranks_go_by_five_things(a: RankKey, b: RankKey)
    ensures
        a.class < b.class ==> ranks_before(a, b),
        a.class == b.class && a.decile > b.decile ==> ranks_before(a, b),
        a.class == b.class && a.decile == b.decile && a.held && !b.held ==> ranks_before(a, b),
        a.class == b.class && a.decile == b.decile && a.held == b.held && a.emphasis < b.emphasis
            ==> ranks_before(a, b),
        a.class == b.class && a.decile == b.decile && a.held == b.held && a.emphasis == b.emphasis
            && a.position < b.position ==> ranks_before(a, b),
        ranks_before(a, b) ==> !ranks_before(b, a),
{
}

/// The first group from `k` on that is below the line and wants an id, if there is one.
proof fn deferred_slots_are_first(gs: Seq<PinGroup>, resident: Seq<bool>, id: Seq<char>, k: int)
    requires
        0 <= k,
    ensures
        deferred_slot(gs, resident, id, k) is None <==> forall|s: int|
            k <= s < gs.len() && !resident[s] ==> !lists((#[trigger] gs[s]).songs@, id),
        deferred_slot(gs, resident, id, k) matches Some(s) ==> k <= s < gs.len() && !resident[s]
            && lists(gs[s].songs@, id) && forall|t: int|
            k <= t < s && !resident[t] ==> !lists((#[trigger] gs[t]).songs@, id),
    decreases gs.len() - k,
{
    if k < gs.len() {
        deferred_slots_are_first(gs, resident, id, k + 1);
        if deferred_slot(gs, resident, id, k) is None {
            assert forall|s: int| k <= s < gs.len() && !resident[s] implies !lists(
                (#[trigger] gs[s]).songs@,
                id,
            ) by {}
        } else {
            let s = deferred_slot(gs, resident, id, k)->0;
            assert(!resident[s] && lists(gs[s].songs@, id));
        }
    }
}

/// Where an id stands follows from the groups that list it. It is held where a group above the
/// line does, and by the first of those. It is below the line where groups list it and none of
/// them is above, and counts to the first of those. Anything else is kept on the chance alone.
pub proof fn standings_follow_the_groups(
    pins: PinSet,
    entries: Seq<IndexEntry>,
    ceiling: u64,
    now_unix: u64,
    id: Seq<char>,
)
    ensures
        ({
            let line = line_of(pins, entries, ceiling, now_unix);
            let gs = line.groups;
            let r = line.walk.resident;
            let st = line.standing(id);
            &&& st.0 is Resident <==> storable(id) && exists|s: int|
                0 <= s < gs.len() && r[s] && lists((#[trigger] gs[s]).songs@, id)
            &&& st.0 is Resident ==> 0 <= st.1 < gs.len() && r[st.1] && lists(gs[st.1].songs@, id)
                && forall|s: int|
                0 <= s < st.1 && r[s] ==> !lists((#[trigger] gs[s]).songs@, id)
            &&& st.0 is Deferred <==> storable(id) && (exists|s: int|
                0 <= s < gs.len() && lists((#[trigger] gs[s]).songs@, id)) && forall|s: int|
                0 <= s < gs.len() && r[s] ==> !lists((#[trigger] gs[s]).songs@, id)
            &&& st.0 is Deferred ==> 0 <= st.1 < gs.len() && lists(gs[st.1].songs@, id) && forall|
                s: int,
            |
                0 <= s < st.1 ==> !lists((#[trigger] gs[s]).songs@, id)
            &&& st.0 is Opportunistic <==> !storable(id) || forall|s: int|
                0 <= s < gs.len() ==> !lists((#[trigger] gs[s]).songs@, id)
        }),
{
    order_is_a_permutation(pins, entries, now_unix);
    assert(pins.groups@.len() == pins.groups.len());
    let line = line_of(pins, entries, ceiling, now_unix);
    let gs = line.groups;
    let r = line.walk.resident;
    let claims = line.walk.claims;
    let n = gs.len() as int;
    walks_are_sound(gs, line.sizes, ceiling as int, n);
    assert(claims.take(0) =~= Seq::<Claim>::empty());
    early_claims_stand(Seq::empty(), claims, id);
    deferred_slots_are_first(gs, r, id, 0);
    if claimed(claims, id) {
        let k = choose|k: int|
            0 <= k < claims.len() && (#[trigger] claims[k]).id@ == id && claims[k].slot
                == claim_slot(claims, id)->0;
        assert(rightful(gs, r, claims[k]));
        let c = claims[k].slot as int;
        assert(r[c] && lists(gs[c].songs@, id));
        assert forall|s: int| 0 <= s < c && r[s] implies !lists((#[trigger] gs[s]).songs@, id) by {
            assert(r[s]);
        }
    } else if storable(id) {
        assert forall|s: int| 0 <= s < n && r[s] implies !lists((#[trigger] gs[s]).songs@, id) by {
            if lists(gs[s].songs@, id) {
                let m = choose|m: int|
                    0 <= m < gs[s].songs@.len() && (#[trigger] gs[s].songs@[m]).id@ == id;
                assert(claimed(claims, gs[s].songs@[m].id@));
            }
        }
    }
}

/// What the walk recorded of a group it does not change later.
proof fn records_stand(gs: Seq<PinGroup>, sizes: Seq<SizeEntry>, ceiling: int, slot: int, n: int)
    requires
        0 <= slot < n <= gs.len() <= usize::MAX,
        0 <= ceiling <= u64::MAX,
    ensures
        ({
            let v = walk(gs, sizes, ceiling, slot + 1);
            let w = walk(gs, sizes, ceiling, n);
            &&& w.resident[slot] == v.resident[slot]
            &&& w.over_by[slot] == v.over_by[slot]
            &&& w.blocked_by[slot] == v.blocked_by[slot]
            &&& w.held_back[slot] == v.held_back[slot]
        }),
    decreases n,
{
    if slot + 1 < n {
        records_stand(gs, sizes, ceiling, slot, n - 1);
        walks_are_sound(gs, sizes, ceiling, n - 1);
    }
}

/// A group is above the line exactly where it fits when its turn comes: the tracks that no group
/// before it holds go in whole beside what is held already, under the ceiling less what is kept
/// back for loose starred songs. One that is refused is told by how much it missed, what took
/// space last, and whether it was only what is kept back that refused it.
pub proof fn groups_are_admitted_where_they_fit(
    pins: PinSet,
    entries: Seq<IndexEntry>,
    ceiling: u64,
    now_unix: u64,
    slot: int,
)
    requires
        0 <= slot < pins.groups@.len(),
        ceiling < u64::MAX,
    ensures
        ({
            let line = line_of(pins, entries, ceiling, now_unix);
            let before = walk(line.groups, line.sizes, ceiling as int, slot);
            let held = staked_bytes(line.sizes, before.claims);
            let cost = charge(line.groups[slot], line.sizes, before.claims);
            let room = ceiling - reservation(line.groups, line.sizes, ceiling as int, slot);
            &&& line.walk.resident[slot] <==> held + cost <= room
            &&& line.walk.resident[slot] ==> line.walk.over_by[slot] == 0
                && line.walk.blocked_by[slot] is None && !line.walk.held_back[slot]
            &&& !line.walk.resident[slot] && held <= room ==> line.walk.over_by[slot] == held + cost
                - room
            &&& !line.walk.resident[slot] && held > room ==> line.walk.over_by[slot] == cost
            &&& !line.walk.resident[slot] ==> line.walk.blocked_by[slot] == before.last
            &&& line.walk.held_back[slot] <==> !line.walk.resident[slot] && held + cost <= ceiling
        }),
{
    order_is_a_permutation(pins, entries, now_unix);
    assert(pins.groups@.len() == pins.groups.len());
    let line = line_of(pins, entries, ceiling, now_unix);
    let gs = line.groups;
    let c = ceiling as int;
    let n = gs.len() as int;
    walks_are_sound(gs, line.sizes, c, slot);
    records_stand(gs, line.sizes, c, slot, n);
    reservations_are_bounded(gs, line.sizes, c, slot);
    let before = walk(gs, line.sizes, c, slot);
    weights_are_natural(gs[slot].songs@, line.sizes, fresh(gs[slot].songs@, before.claims));
    assert(walk(gs, line.sizes, c, slot + 1) == walk_step(gs, line.sizes, c, before));
}

/// What is kept back from a group: nothing from a loose starred song, and from any other what
/// such songs still ahead need, but no more than their share.
pub proof fn reservations_are_bounded(
    gs: Seq<PinGroup>,
    sizes: Seq<SizeEntry>,
    ceiling: int,
    slot: int,
)
    requires
        0 <= ceiling <= u64::MAX,
    ensures
        0 <= reservation(gs, sizes, ceiling, slot) <= star_share(ceiling) <= ceiling,
        gs[slot].tier is Song ==> reservation(gs, sizes, ceiling, slot) == 0,
        reservation(gs, sizes, ceiling, slot) <= stars_ahead(gs, sizes, slot),
        !(gs[slot].tier is Song) ==> reservation(gs, sizes, ceiling, slot) == star_share(ceiling)
            || reservation(gs, sizes, ceiling, slot) == stars_ahead(gs, sizes, slot),
{
    stars_are_natural(gs, sizes, slot);
}

/// A loose starred song needs room of its own exactly where it wants a storable track that no
/// group before it wants; it then needs all its tracks. No other group needs any kept.
pub proof fn stars_need_room_of_their_own(gs: Seq<PinGroup>, sizes: Seq<SizeEntry>, slot: int)
    requires
        0 <= slot < gs.len(),
    ensures
        !(gs[slot].tier is Song) ==> star_need(gs, sizes, slot) == 0,
        (forall|i: int|
            0 <= i < gs[slot].songs@.len() && storable((#[trigger] gs[slot].songs@[i]).id@)
                ==> exists|k: int|
                0 <= k < slot && lists((#[trigger] gs[k]).songs@, gs[slot].songs@[i].id@))
            ==> star_need(gs, sizes, slot) == 0,
        gs[slot].tier is Song && (exists|i: int|
            0 <= i < gs[slot].songs@.len() && storable((#[trigger] gs[slot].songs@[i]).id@)
                && forall|k: int|
                0 <= k < slot ==> !lists((#[trigger] gs[k]).songs@, gs[slot].songs@[i].id@))
            ==> star_need(gs, sizes, slot) == listed_bytes(
            gs[slot].songs@,
            sizes,
            gs[slot].songs@.len() as int,
        ),
        stars_ahead(gs, sizes, slot) == star_need(gs, sizes, slot) + stars_ahead(
            gs,
            sizes,
            slot + 1,
        ),
{
    if forall|i: int|
        0 <= i < gs[slot].songs@.len() && storable((#[trigger] gs[slot].songs@[i]).id@)
            ==> exists|k: int|
            0 <= k < slot && lists((#[trigger] gs[k]).songs@, gs[slot].songs@[i].id@) {
        assert forall|i: int|
            0 <= i < gs[slot].songs@.len() && storable(
                (#[trigger] gs[slot].songs@[i]).id@,
            ) implies wanted_above(gs, slot, gs[slot].songs@[i].id@) by {}
    }
    if exists|i: int|
        0 <= i < gs[slot].songs@.len() && storable((#[trigger] gs[slot].songs@[i]).id@) && forall|
            k: int,
        |
            0 <= k < slot ==> !lists((#[trigger] gs[k]).songs@, gs[slot].songs@[i].id@) {
        let i = choose|i: int|
            0 <= i < gs[slot].songs@.len() && storable((#[trigger] gs[slot].songs@[i]).id@)
                && forall|k: int|
                0 <= k < slot ==> !lists((#[trigger] gs[k]).songs@, gs[slot].songs@[i].id@);
        assert(!wanted_above(gs, slot, gs[slot].songs@[i].id@));
    }
}

/// Who took space last: the group before, if it is above the line and took any, else who it was
/// before that. Nobody did before the first.
pub proof fn the_last_to_take_space(gs: Seq<PinGroup>, sizes: Seq<SizeEntry>, ceiling: int, k: int)
    requires
        0 < k <= gs.len() <= usize::MAX,
        0 <= ceiling <= u64::MAX,
    ensures
        walk(gs, sizes, ceiling, 0).last is None,
        ({
            let was = walk(gs, sizes, ceiling, k - 1);
            let now = walk(gs, sizes, ceiling, k);
            let took = now.resident[k - 1] && charge(gs[k - 1], sizes, was.claims) > 0;
            &&& took ==> now.last == Some(gs[k - 1].name)
            &&& !took ==> now.last == was.last
        }),
{
    walks_are_sound(gs, sizes, ceiling, k - 1);
}

} // verus!
