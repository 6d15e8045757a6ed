//! The frontier: one ordering over pin groups decides what is kept, what is fetched and what
//! is refused by name.
use crate::budget::{capped, least, most, star_floor, star_share};
use crate::entries::{cached, find_entry, IndexEntry};
use crate::model::Song;
use crate::names::{is_storable_id, storable};
use crate::pins::{emphasis, emphasis_rank, PinGroup, PinSet, PinTier};
use crate::score::{
    cold_share, cold_weight, lists, named_before, picked, picks, size_in, size_of_id, size_table,
    sizes_of, tracks, weigh, weight, weights_are_natural, GroupScore, SizeEntry,
};
use crate::sorting::{sort_positions, sorting_keeps_elements};
use crate::status::{GroupStanding, RankedGroup};
use crate::text::copy_opt;
use vstd::prelude::*;
use vstd::relations::total_ordering;

verus! {

/// An id and the slot of the resident group that holds it.
pub struct Claim {
    pub id: String,
    pub slot: usize,
}

/// What a group is ranked by, the weightiest first.
pub struct RankKey {
    /// Hand-picked gestures before the fan-out of a starred artist.
    pub class: int,
    /// The larger neglected share first.
    pub decile: int,
    /// What is on disk keeps a tie.
    pub held: bool,
    pub emphasis: int,
    /// Place in the pin set.
    pub position: int,
}

/// Whether one key goes before another.
pub open spec fn ranks_before(a: RankKey, b: RankKey) -> bool {
    if a.class != b.class {
        a.class < b.class
    } else if a.decile != b.decile {
        a.decile > b.decile
    } else if a.held != b.held {
        a.held
    } else if a.emphasis != b.emphasis {
        a.emphasis < b.emphasis
    } else {
        a.position < b.position
    }
}

/// Whether any storable track of a list is on disk.
pub open spec fn holds_any(songs: Seq<Song>, entries: Seq<IndexEntry>) -> bool {
    exists|i: int|
        0 <= i < songs.len() && storable((#[trigger] songs[i]).id@) && cached(entries, songs[i].id@)
}

/// The key of the group at a place of the pin set.
pub open spec fn rank_key(
    groups: Seq<PinGroup>,
    entries: Seq<IndexEntry>,
    sizes: Seq<SizeEntry>,
    now_unix: u64,
    i: int,
) -> RankKey {
    let g = groups[i];
    RankKey {
        class: g.tier.class_of() as int,
        decile: cold_share(g.songs@, sizes, now_unix),
        held: holds_any(g.songs@, entries),
        emphasis: emphasis(g.tier, cold_weight(g.songs@, sizes, now_unix) > 0) as int,
        position: i,
    }
}

/// The frontier's order over places of the pin set.
pub open spec fn rank_order(
    groups: Seq<PinGroup>,
    entries: Seq<IndexEntry>,
    sizes: Seq<SizeEntry>,
    now_unix: u64,
) -> spec_fn(usize, usize) -> bool {
    |x: usize, y: usize|
        !ranks_before(
            rank_key(groups, entries, sizes, now_unix, y as int),
            rank_key(groups, entries, sizes, now_unix, x as int),
        )
}

/// The places `0` to `n - 1`.
pub open spec fn places(n: nat) -> Seq<usize> {
    Seq::new(n, |i: int| i as usize)
}

/// The groups in frontier order.
pub open spec fn ordered(groups: Seq<PinGroup>, order: Seq<usize>) -> Seq<PinGroup> {
    Seq::new(order.len(), |k: int| groups[order[k] as int])
}

/// Whether an id is held by a resident group.
pub open spec fn claimed(claims: Seq<Claim>, id: Seq<char>) -> bool {
    exists|k: int| 0 <= k < claims.len() && (#[trigger] claims[k]).id@ == id
}

/// The ids held by resident groups.
pub open spec fn claimed_ids(claims: Seq<Claim>) -> Set<Seq<char>> {
    Set::new(|id: Seq<char>| claimed(claims, id))
}

/// The slot that holds an id.
pub open spec fn claim_slot(claims: Seq<Claim>, id: Seq<char>) -> Option<usize>
    decreases claims.len(),
{
    if claims.len() == 0 {
        None
    } else if claims[0].id@ == id {
        Some(claims[0].slot)
    } else {
        claim_slot(claims.drop_first(), id)
    }
}

/// Whether a slot holds anything of its own.
pub open spec fn carries(claims: Seq<Claim>, slot: int) -> bool {
    exists|k: int| 0 <= k < claims.len() && (#[trigger] claims[k]).slot == slot
}

/// A group's tracks that no resident group holds yet.
pub open spec fn fresh(songs: Seq<Song>, claims: Seq<Claim>) -> Seq<usize> {
    tracks(songs, claimed_ids(claims))
}

/// The claims a group stakes on its tracks at these positions.
pub open spec fn stakes(songs: Seq<Song>, at: Seq<usize>, slot: usize) -> Seq<Claim> {
    Seq::new(at.len(), |k: int| Claim { id: songs[at[k] as int].id.0, slot })
}

/// Whether a group before this slot wants an id.
pub open spec fn wanted_above(gs: Seq<PinGroup>, slot: int, id: Seq<char>) -> bool {
    exists|k: int| 0 <= k < slot && lists((#[trigger] gs[k]).songs@, id)
}

/// Bytes of the first `n` storable songs of a list, each as often as it is named.
pub open spec fn listed_bytes(songs: Seq<Song>, sizes: Seq<SizeEntry>, n: int) -> int
    decreases n,
{
    if n <= 0 {
        0
    } else {
        listed_bytes(songs, sizes, n - 1) + if storable(songs[n - 1].id@) {
            size_in(sizes, songs[n - 1].id@)
        } else {
            0
        }
    }
}

/// A storable track that no group above this slot wants.
pub open spec fn wants_alone(gs: Seq<PinGroup>, slot: int) -> bool {
    exists|i: int|
        0 <= i < gs[slot].songs@.len() && storable((#[trigger] gs[slot].songs@[i]).id@)
            && !wanted_above(gs, slot, gs[slot].songs@[i].id@)
}

/// What a loose starred song needs reserved: its bytes, unless a group above carries it.
pub open spec fn star_need(gs: Seq<PinGroup>, sizes: Seq<SizeEntry>, slot: int) -> int {
    if gs[slot].tier == PinTier::Song && wants_alone(gs, slot) {
        listed_bytes(gs[slot].songs@, sizes, gs[slot].songs@.len() as int)
    } else {
        0
    }
}

/// What the loose starred songs from this slot on need reserved.
pub open spec fn stars_ahead(gs: Seq<PinGroup>, sizes: Seq<SizeEntry>, slot: int) -> int
    decreases gs.len() - slot,
{
    if slot >= gs.len() {
        0
    } else {
        star_need(gs, sizes, slot) + stars_ahead(gs, sizes, slot + 1)
    }
}

/// What a group must leave to the loose starred songs still to come.
pub open spec fn reservation(
    gs: Seq<PinGroup>,
    sizes: Seq<SizeEntry>,
    ceiling: int,
    slot: int,
) -> int {
    if gs[slot].tier == PinTier::Song {
        0
    } else {
        least(star_share(ceiling), capped(stars_ahead(gs, sizes, slot)))
    }
}

/// How far the walk along the frontier has come.
pub struct Walk {
    /// Which of the groups passed are above the line.
    pub resident: Seq<bool>,
    pub claims: Seq<Claim>,
    /// Bytes above the line.
    pub spent: int,
    /// Per group passed: the bytes it missed by, the last group to take space before it was
    /// refused, and whether the reservation alone refused it.
    pub over_by: Seq<int>,
    pub blocked_by: Seq<Option<String>>,
    pub held_back: Seq<bool>,
    /// The last group to take space.
    pub last: Option<String>,
}

/// What a group is charged at its turn.
pub open spec fn charge(g: PinGroup, sizes: Seq<SizeEntry>, claims: Seq<Claim>) -> int {
    capped(weight(g.songs@, sizes, fresh(g.songs@, claims)))
}

/// The walk one group further: it is taken whole, or refused whole and the walk goes on.
pub open spec fn walk_step(
    gs: Seq<PinGroup>,
    sizes: Seq<SizeEntry>,
    ceiling: int,
    w: Walk,
) -> Walk {
    let slot = w.resident.len() as int;
    let g = gs[slot];
    let cost = charge(g, sizes, w.claims);
    let kept_back = reservation(gs, sizes, ceiling, slot);
    let budget = most(0, ceiling - kept_back);
    let total = capped(w.spent + cost);
    if total <= budget {
        Walk {
            resident: w.resident.push(true),
            claims: w.claims + stakes(g.songs@, fresh(g.songs@, w.claims), slot as usize),
            spent: total,
            over_by: w.over_by.push(0),
            blocked_by: w.blocked_by.push(None),
            held_back: w.held_back.push(false),
            last: if cost > 0 {
                Some(g.name)
            } else {
                w.last
            },
        }
    } else {
        Walk {
            resident: w.resident.push(false),
            claims: w.claims,
            spent: w.spent,
            over_by: w.over_by.push(most(0, cost - most(0, budget - w.spent))),
            blocked_by: w.blocked_by.push(w.last),
            held_back: w.held_back.push(kept_back > 0 && total <= ceiling),
            last: w.last,
        }
    }
}

/// The walk over the first `k` groups.
pub open spec fn walk(gs: Seq<PinGroup>, sizes: Seq<SizeEntry>, ceiling: int, k: int) -> Walk
    decreases k,
{
    if k <= 0 {
        Walk {
            resident: Seq::empty(),
            claims: Seq::empty(),
            spent: 0,
            over_by: Seq::empty(),
            blocked_by: Seq::empty(),
            held_back: Seq::empty(),
            last: None,
        }
    } else {
        walk_step(gs, sizes, ceiling, walk(gs, sizes, ceiling, k - 1))
    }
}

/// The line drawn through a pin set: the groups in order, the cost table and the walk.
pub struct Line {
    pub order: Seq<usize>,
    pub groups: Seq<PinGroup>,
    pub sizes: Seq<SizeEntry>,
    pub walk: Walk,
}

/// The line of a pin set over what is on disk, under a ceiling, at a date.
pub open spec fn line_of(
    pins: PinSet,
    entries: Seq<IndexEntry>,
    ceiling: u64,
    now_unix: u64,
) -> Line {
    let sizes = size_table(pins.all_songs(), entries);
    let order = places(pins.groups@.len()).sort_by(
        rank_order(pins.groups@, entries, sizes, now_unix),
    );
    let gs = ordered(pins.groups@, order);
    Line { order, groups: gs, sizes, walk: walk(gs, sizes, ceiling as int, gs.len() as int) }
}

/// The first group from slot `k` on that is below the line and wants an id.
pub open spec fn deferred_slot(
    gs: Seq<PinGroup>,
    resident: Seq<bool>,
    id: Seq<char>,
    k: int,
) -> Option<int>
    decreases gs.len() - k,
{
    if k >= gs.len() {
        None
    } else if !resident[k] && lists(gs[k].songs@, id) {
        Some(k)
    } else {
        deferred_slot(gs, resident, id, k + 1)
    }
}

/// Where a cached entry stands relative to the line. In this order entries are evicted.
#[derive(Clone, Copy, Debug, PartialEq, Eq, PartialOrd, Ord, Structural)]
pub enum Standing {
    /// Not in the pin set: bytes kept on the chance that they are played again.
    Opportunistic,
    /// In a group below the line.
    Deferred,
    /// In a group above the line.
    Resident,
}

impl Standing {
    /// Place in the eviction order.
    pub open spec fn turn(self) -> int {
        match self {
            Standing::Opportunistic => 0,
            Standing::Deferred => 1,
            Standing::Resident => 2,
        }
    }
}

impl Line {
    /// Where an id stands, and the slot of its group if it has one.
    pub open spec fn standing(self, id: Seq<char>) -> (Standing, int) {
        match claim_slot(self.walk.claims, id) {
            Some(slot) => (Standing::Resident, slot as int),
            None => match deferred_slot(self.groups, self.walk.resident, id, 0) {
                Some(slot) if storable(id) => (Standing::Deferred, slot),
                _ => (Standing::Opportunistic, usize::MAX as int),
            },
        }
    }

    /// An id's byte cost as the line accounts for it.
    pub open spec fn size(self, id: Seq<char>) -> int {
        size_in(self.sizes, id)
    }

    /// What no resident group holds of the group at a slot.
    pub open spec fn missing(self, slot: int) -> Seq<usize> {
        fresh(self.groups[slot].songs@, self.walk.claims)
    }

    /// The standing reported for the group at a slot.
    pub open spec fn group_standing(self, slot: int) -> GroupStanding {
        if carries(self.walk.claims, slot) {
            GroupStanding::Resident
        } else if self.missing(slot).len() > 0 {
            GroupStanding::Deferred
        } else if tracks(self.groups[slot].songs@, Set::empty()).len() > 0 {
            GroupStanding::Covered
        } else if self.walk.resident[slot] {
            GroupStanding::Resident
        } else {
            GroupStanding::Deferred
        }
    }

    /// A report of the group at a slot: its standing and the numbers it was ranked on.
    pub open spec fn reports(
        self,
        r: RankedGroup,
        entries: Seq<IndexEntry>,
        now_unix: u64,
        slot: int,
    ) -> bool {
        let g = self.groups[slot];
        &&& r.kind == g.kind
        &&& r.id == g.id
        &&& r.name == g.name
        &&& r.tier == g.tier
        &&& r.standing == self.group_standing(slot)
        &&& r.rank == slot
        &&& r.missing_tracks == self.missing(slot).len()
        &&& r.missing_bytes == capped(weight(g.songs@, self.sizes, self.missing(slot)))
        &&& r.held == holds_any(g.songs@, entries)
        &&& (GroupScore {
            tracks: r.tracks,
            bytes: r.bytes,
            cold_tracks: r.cold_tracks,
            cold_bytes: r.cold_bytes,
            never_played: r.never_played,
            plays: r.plays,
            last_played_days: r.last_played_days,
            oldest_played_days: r.oldest_played_days,
            cold_decile: r.cold_decile,
        }).is_of(g.songs@, self.sizes, now_unix)
        &&& r.over_by == self.walk.over_by[slot]
        &&& r.blocked_by == self.walk.blocked_by[slot]
        &&& r.held_back_by_floor == self.walk.held_back[slot]
    }
}

/// The frontier as built: parallel vectors over the slots of the order.
pub struct Frontier<'a> {
    pub pins: &'a PinSet,
    /// Places of the pin set, in frontier order.
    pub order: Vec<usize>,
    pub resident: Vec<bool>,
    pub score: Vec<GroupScore>,
    pub held: Vec<bool>,
    pub over_by: Vec<u64>,
    pub blocked_by: Vec<Option<String>>,
    pub held_back_by_floor: Vec<bool>,
    pub claims: Vec<Claim>,
    pub sizes: Vec<SizeEntry>,
    pub resident_bytes: u64,
    /// The line these vectors hold, and what it was drawn over.
    pub line: Ghost<Line>,
    pub entries: Ghost<Seq<IndexEntry>>,
    pub now_unix: u64,
}

impl<'a> Frontier<'a> {
    /// The vectors hold the line, and each group's evidence.
    pub open spec fn wf(self) -> bool {
        self.draws(self.line@) && self.evidenced(self.entries@, self.now_unix)
    }

    /// What the vectors hold is this line.
    pub open spec fn draws(self, line: Line) -> bool {
        &&& self.order@ == line.order
        &&& line.groups == ordered(self.pins.groups@, self.order@)
        &&& forall|k: int|
            0 <= k < self.order@.len() ==> (#[trigger] self.order@[k]) < self.pins.groups@.len()
        &&& self.resident@ == line.walk.resident
        &&& self.resident@.len() == self.order@.len()
        &&& self.over_by@.len() == self.order@.len()
        &&& line.walk.over_by.len() == self.order@.len()
        &&& forall|k: int|
            0 <= k < self.order@.len() ==> (#[trigger] self.over_by@[k]) == line.walk.over_by[k]
        &&& self.blocked_by@ == line.walk.blocked_by
        &&& self.blocked_by@.len() == self.order@.len()
        &&& self.held_back_by_floor@ == line.walk.held_back
        &&& self.held_back_by_floor@.len() == self.order@.len()
        &&& self.claims@ == line.walk.claims
        &&& forall|k: int|
            0 <= k < self.claims@.len() ==> (#[trigger] self.claims@[k]).slot < self.order@.len()
        &&& self.sizes@ == line.sizes
        &&& self.resident_bytes == line.walk.spent
    }

    /// The evidence each group was ranked on.
    pub open spec fn evidenced(self, entries: Seq<IndexEntry>, now_unix: u64) -> bool {
        &&& self.score@.len() == self.order@.len()
        &&& self.held@.len() == self.order@.len()
        &&& forall|k: int|
            0 <= k < self.order@.len() ==> (#[trigger] self.score@[k]).is_of(
                self.pins.groups@[self.order@[k] as int].songs@,
                self.sizes@,
                now_unix,
            )
        &&& forall|k: int|
            0 <= k < self.order@.len() ==> (#[trigger] self.held@[k]) == holds_any(
                self.pins.groups@[self.order@[k] as int].songs@,
                entries,
            )
    }
}

/// The frontier's order is one: any two groups are ranked one way or the other.
pub proof fn rank_order_is_total(
    groups: Seq<PinGroup>,
    entries: Seq<IndexEntry>,
    sizes: Seq<SizeEntry>,
    now_unix: u64,
)
    ensures
        total_ordering(rank_order(groups, entries, sizes, now_unix)),
{
    let r = rank_order(groups, entries, sizes, now_unix);
    assert forall|x: usize, y: usize, z: usize| #[trigger] r(x, y) && #[trigger] r(y, z) implies r(
        x,
        z,
    ) by {
        let a = rank_key(groups, entries, sizes, now_unix, x as int);
        let b = rank_key(groups, entries, sizes, now_unix, y as int);
        let c = rank_key(groups, entries, sizes, now_unix, z as int);
        assert(!ranks_before(b, a) && !ranks_before(c, b));
        assert(!ranks_before(c, a));
    }
}

/// Whether any storable track of a list is on disk.
fn any_held(songs: &Vec<Song>, entries: &Vec<IndexEntry>) -> (r: bool)
    ensures
        r == holds_any(songs@, entries@),
{
    for i in 0..songs.len()
        invariant
            forall|j: int|
                0 <= j < i ==> !(storable((#[trigger] songs@[j]).id@) && cached(
                    entries@,
                    songs@[j].id@,
                )),
    {
        let s: &Song = &songs[i];
        if is_storable_id(s.id.0.as_str()) && find_entry(entries, &s.id.0).is_some() {
            assert(storable(songs@[i as int].id@) && cached(entries@, songs@[i as int].id@));
            return true;
        }
    }
    false
}

/// The slot that holds an id.
pub fn find_claim(claims: &Vec<Claim>, id: &String) -> (r: Option<usize>)
    ensures
        r == claim_slot(claims@, id@),
        r is Some <==> claimed(claims@, id@),
        r is Some ==> exists|k: int|
            0 <= k < claims@.len() && (#[trigger] claims@[k]).id@ == id@ && claims@[k].slot == r->0,
{
    assert(claims@.skip(0) =~= claims@);
    for k in 0..claims.len()
        invariant
            claim_slot(claims@, id@) == claim_slot(claims@.skip(k as int), id@),
            forall|j: int| 0 <= j < k ==> (#[trigger] claims@[j]).id@ != id@,
    {
        assert(claims@.skip(k as int).drop_first() =~= claims@.skip(k + 1));
        if claims[k].id == *id {
            return Some(claims[k].slot);
        }
    }
    None
}

/// A group's tracks that no resident group holds yet.
pub fn fresh_tracks(songs: &Vec<Song>, claims: &Vec<Claim>) -> (r: Vec<usize>)
    ensures
        r@ == fresh(songs@, claims@),
        forall|k: int| 0 <= k < r@.len() ==> (#[trigger] r@[k]) < songs@.len(),
{
    let mut out: Vec<usize> = Vec::new();
    let ghost skip = claimed_ids(claims@);
    for i in 0..songs.len()
        invariant
            skip == claimed_ids(claims@),
            out@ == picks(songs@, skip, i as int),
            forall|k: int| 0 <= k < out@.len() ==> (#[trigger] out@[k]) < songs@.len(),
    {
        let s: &Song = &songs[i];
        if is_storable_id(s.id.0.as_str()) && find_claim(claims, &s.id.0).is_none()
            && !named_before(songs, i) {
            assert(picked(songs@, skip, i as int));
            out.push(i);
        } else {
            assert(!picked(songs@, skip, i as int));
        }
    }
    out
}

/// Whether a list of songs names an id.
pub fn song_listed(songs: &Vec<Song>, id: &String) -> (r: bool)
    ensures
        r == lists(songs@, id@),
{
    for i in 0..songs.len()
        invariant
            forall|j: int| 0 <= j < i ==> (#[trigger] songs@[j]).id@ != id@,
    {
        if songs[i].id.0 == *id {
            return true;
        }
    }
    false
}

/// Whether a group before this slot wants an id.
fn is_wanted_above(pins: &PinSet, order: &Vec<usize>, slot: usize, id: &String) -> (r: bool)
    requires
        slot <= order@.len(),
        forall|k: int| 0 <= k < order@.len() ==> (#[trigger] order@[k]) < pins.groups@.len(),
    ensures
        r == wanted_above(ordered(pins.groups@, order@), slot as int, id@),
{
    let ghost gs = ordered(pins.groups@, order@);
    for k in 0..slot
        invariant
            slot <= order@.len(),
            gs == ordered(pins.groups@, order@),
            forall|k: int| 0 <= k < order@.len() ==> (#[trigger] order@[k]) < pins.groups@.len(),
            forall|j: int| 0 <= j < k ==> !lists((#[trigger] gs[j]).songs@, id@),
    {
        let g: &PinGroup = &pins.groups[order[k]];
        assert(gs[k as int] == *g);
        if song_listed(&g.songs, id) {
            return true;
        }
    }
    false
}

/// What a slot needs reserved, as far as 64 bits go.
fn need_of_star(
    pins: &PinSet,
    order: &Vec<usize>,
    sizes: &Vec<SizeEntry>,
    slot: usize,
) -> (r: u64)
    requires
        slot < order@.len(),
        forall|k: int| 0 <= k < order@.len() ==> (#[trigger] order@[k]) < pins.groups@.len(),
    ensures
        r == capped(star_need(ordered(pins.groups@, order@), sizes@, slot as int)),
        0 <= star_need(ordered(pins.groups@, order@), sizes@, slot as int),
{
    let ghost gs = ordered(pins.groups@, order@);
    let g: &PinGroup = &pins.groups[order[slot]];
    assert(gs[slot as int] == *g);
    if g.tier != PinTier::Song {
        return 0;
    }
    let mut sum: u64 = 0;
    let mut alone: bool = false;
    for i in 0..g.songs.len()
        invariant
            slot < order@.len(),
            forall|k: int| 0 <= k < order@.len() ==> (#[trigger] order@[k]) < pins.groups@.len(),
            gs == ordered(pins.groups@, order@),
            gs[slot as int] == *g,
            sum == capped(listed_bytes(g.songs@, sizes@, i as int)),
            0 <= listed_bytes(g.songs@, sizes@, i as int),
            alone == exists|j: int|
                0 <= j < i && storable((#[trigger] g.songs@[j]).id@) && !wanted_above(
                    gs,
                    slot as int,
                    g.songs@[j].id@,
                ),
    {
        let s: &Song = &g.songs[i];
        if is_storable_id(s.id.0.as_str()) {
            if !is_wanted_above(pins, order, slot, &s.id.0) {
                alone = true;
            }
            sum = sum.saturating_add(size_of_id(sizes, &s.id.0));
        }
    }
    if alone {
        sum
    } else {
        0
    }
}

/// What the loose starred songs need reserved from each slot on.
fn stars_from(pins: &PinSet, order: &Vec<usize>, sizes: &Vec<SizeEntry>) -> (r: Vec<u64>)
    requires
        forall|k: int| 0 <= k < order@.len() ==> (#[trigger] order@[k]) < pins.groups@.len(),
    ensures
        r@.len() == order@.len(),
        forall|k: int|
            0 <= k < order@.len() ==> (#[trigger] r@[k]) == capped(
                stars_ahead(ordered(pins.groups@, order@), sizes@, k),
            ),
{
    let ghost gs = ordered(pins.groups@, order@);
    let n: usize = order.len();
    let mut out: Vec<u64> = Vec::new();
    for i in 0..n
        invariant
            out@.len() == i,
    {
        out.push(0);
    }
    let mut sum: u64 = 0;
    let mut slot: usize = n;
    while slot > 0
        invariant
            n == order@.len(),
            slot <= n,
            gs == ordered(pins.groups@, order@),
            forall|k: int| 0 <= k < order@.len() ==> (#[trigger] order@[k]) < pins.groups@.len(),
            out@.len() == n,
            sum == capped(stars_ahead(gs, sizes@, slot as int)),
            0 <= stars_ahead(gs, sizes@, slot as int),
            forall|k: int|
                slot <= k < n ==> (#[trigger] out@[k]) == capped(stars_ahead(gs, sizes@, k)),
        decreases slot,
    {
        slot = slot - 1;
        sum = need_of_star(pins, order, sizes, slot).saturating_add(sum);
        out.set(slot, sum);
    }
    out
}

/// Places of the pin set in frontier order, with the evidence they were ranked on.
fn rank_groups(
    pins: &PinSet,
    entries: &Vec<IndexEntry>,
    sizes: &Vec<SizeEntry>,
    now_unix: u64,
) -> (r: (Vec<usize>, Vec<GroupScore>, Vec<bool>))
    ensures
        r.0@ == places(pins.groups@.len()).sort_by(
            rank_order(pins.groups@, entries@, sizes@, now_unix),
        ),
        r.0@.len() == pins.groups@.len(),
        forall|k: int| 0 <= k < r.0@.len() ==> (#[trigger] r.0@[k]) < pins.groups@.len(),
        r.1@.len() == r.0@.len(),
        r.2@.len() == r.0@.len(),
        forall|k: int|
            0 <= k < r.0@.len() ==> (#[trigger] r.1@[k]).is_of(
                pins.groups@[r.0@[k] as int].songs@,
                sizes@,
                now_unix,
            ),
        forall|k: int|
            0 <= k < r.0@.len() ==> (#[trigger] r.2@[k]) == holds_any(
                pins.groups@[r.0@[k] as int].songs@,
                entries@,
            ),
{
    let n: usize = pins.groups.len();
    let mut scored: Vec<GroupScore> = Vec::new();
    let mut held: Vec<bool> = Vec::new();
    let mut start: Vec<usize> = Vec::new();
    for i in 0..n
        invariant
            n == pins.groups@.len(),
            scored@.len() == i,
            held@.len() == i,
            start@ =~= places(i as nat),
            forall|k: int|
                0 <= k < i ==> (#[trigger] scored@[k]).is_of(
                    pins.groups@[k].songs@,
                    sizes@,
                    now_unix,
                ),
            forall|k: int|
                0 <= k < i ==> (#[trigger] held@[k]) == holds_any(
                    pins.groups@[k].songs@,
                    entries@,
                ),
    {
        scored.push(GroupScore::of(&pins.groups[i], sizes, now_unix));
        held.push(any_held(&pins.groups[i].songs, entries));
        start.push(i);
    }
    let ghost leq = rank_order(pins.groups@, entries@, sizes@, now_unix);
    let goes_first = |x: usize, y: usize| -> (b: bool)
        requires
            x < n,
            y < n,
        ensures
            b == leq(x, y),
        {
            let a: &PinGroup = &pins.groups[x];
            let c: &PinGroup = &pins.groups[y];
            let ca: u8 = a.tier.class();
            let cc: u8 = c.tier.class();
            let ea: u8 = emphasis_rank(a.tier, scored[x].cold_bytes > 0);
            let ec: u8 = emphasis_rank(c.tier, scored[y].cold_bytes > 0);
            assert(scored@[x as int].is_of(pins.groups@[x as int].songs@, sizes@, now_unix));
            assert(scored@[y as int].is_of(pins.groups@[y as int].songs@, sizes@, now_unix));
            assert(held@[x as int] == holds_any(pins.groups@[x as int].songs@, entries@));
            assert(held@[y as int] == holds_any(pins.groups@[y as int].songs@, entries@));
            if ca != cc {
                ca < cc
            } else if scored[x].cold_decile != scored[y].cold_decile {
                scored[x].cold_decile > scored[y].cold_decile
            } else if held[x] != held[y] {
                held[x]
            } else if ea != ec {
                ea < ec
            } else {
                x <= y
            }
        };
    proof {
        rank_order_is_total(pins.groups@, entries@, sizes@, now_unix);
        sorting_keeps_elements(start@, leq);
    }
    let order: Vec<usize> = sort_positions(&start, goes_first, Ghost(leq));
    assert forall|k: int| 0 <= k < order@.len() implies (#[trigger] order@[k]) < n by {
        assert(order@.contains(order@[k]));
        assert(start@.contains(order@[k]));
    }
    let mut score: Vec<GroupScore> = Vec::new();
    let mut was_held: Vec<bool> = Vec::new();
    for k in 0..order.len()
        invariant
            n == pins.groups@.len(),
            scored@.len() == n,
            held@.len() == n,
            forall|k: int| 0 <= k < order@.len() ==> (#[trigger] order@[k]) < n,
            forall|k: int|
                0 <= k < n ==> (#[trigger] scored@[k]).is_of(
                    pins.groups@[k].songs@,
                    sizes@,
                    now_unix,
                ),
            forall|k: int|
                0 <= k < n ==> (#[trigger] held@[k]) == holds_any(
                    pins.groups@[k].songs@,
                    entries@,
                ),
            score@.len() == k,
            was_held@.len() == k,
            forall|j: int|
                0 <= j < k ==> (#[trigger] score@[j]).is_of(
                    pins.groups@[order@[j] as int].songs@,
                    sizes@,
                    now_unix,
                ),
            forall|j: int|
                0 <= j < k ==> (#[trigger] was_held@[j]) == holds_any(
                    pins.groups@[order@[j] as int].songs@,
                    entries@,
                ),
    {
        score.push(scored[order[k]]);
        was_held.push(held[order[k]]);
    }
    (order, score, was_held)
}

impl<'a> Frontier<'a> {
    /// Draws the line: ranks the groups, then walks them once, taking each whole or refusing
    /// it whole.
    pub fn build(
        pins: &'a PinSet,
        entries: &Vec<IndexEntry>,
        ceiling: u64,
        now_unix: u64,
    ) -> (r: Frontier<'a>)
        ensures
            *r.pins == *pins,
            r.line@ == line_of(*pins, entries@, ceiling, now_unix),
            r.entries@ == entries@,
            r.now_unix == now_unix,
            r.wf(),
    {
        let sizes: Vec<SizeEntry> = sizes_of(pins, entries);
        let (order, score, held) = rank_groups(pins, entries, &sizes, now_unix);
        let ahead: Vec<u64> = stars_from(pins, &order, &sizes);
        let floor: u64 = star_floor(ceiling);
        let ghost gs = ordered(pins.groups@, order@);
        let mut resident: Vec<bool> = Vec::new();
        let mut claims: Vec<Claim> = Vec::new();
        let mut over_by: Vec<u64> = Vec::new();
        let mut blocked_by: Vec<Option<String>> = Vec::new();
        let mut held_back: Vec<bool> = Vec::new();
        let mut last: Option<String> = None;
        let mut spent: u64 = 0;
        for slot in 0..order.len()
            invariant
                forall|k: int|
                    0 <= k < order@.len() ==> (#[trigger] order@[k]) < pins.groups@.len(),
                gs == ordered(pins.groups@, order@),
                ahead@.len() == order@.len(),
                forall|k: int|
                    0 <= k < order@.len() ==> (#[trigger] ahead@[k]) == capped(
                        stars_ahead(gs, sizes@, k),
                    ),
                floor == star_share(ceiling as int),
                ({
                    let w = walk(gs, sizes@, ceiling as int, slot as int);
                    &&& resident@ == w.resident
                    &&& resident@.len() == slot
                    &&& claims@ == w.claims
                    &&& spent == w.spent
                    &&& over_by@.len() == slot
                    &&& w.over_by.len() == slot
                    &&& forall|k: int| 0 <= k < slot ==> (#[trigger] over_by@[k]) == w.over_by[k]
                    &&& blocked_by@ == w.blocked_by
                    &&& blocked_by@.len() == slot
                    &&& held_back@ == w.held_back
                    &&& held_back@.len() == slot
                    &&& last == w.last
                }),
                forall|k: int|
                    0 <= k < claims@.len() ==> (#[trigger] claims@[k]).slot < order@.len(),
        {
            let ghost w = walk(gs, sizes@, ceiling as int, slot as int);
            let g: &PinGroup = &pins.groups[order[slot]];
            assert(gs[slot as int] == *g);
            let at: Vec<usize> = fresh_tracks(&g.songs, &claims);
            let cost: u64 = weigh(&g.songs, &sizes, &at);
            proof {
                weights_are_natural(g.songs@, sizes@, at@);
            }
            let kept_back: u64 = if g.tier == PinTier::Song {
                0
            } else if floor <= ahead[slot] {
                floor
            } else {
                ahead[slot]
            };
            assert(kept_back == reservation(gs, sizes@, ceiling as int, slot as int));
            let budget: u64 = ceiling.saturating_sub(kept_back);
            let total: u64 = spent.saturating_add(cost);
            let ghost held_claims = claims@;
            if total <= budget {
                for k in 0..at.len()
                    invariant
                        forall|k: int| 0 <= k < at@.len() ==> (#[trigger] at@[k]) < g.songs@.len(),
                        slot < order@.len(),
                        claims@ == held_claims + stakes(g.songs@, at@.take(k as int), slot),
                        forall|k: int|
                            0 <= k < claims@.len() ==> (#[trigger] claims@[k]).slot < order@.len(),
                {
                    claims.push(Claim { id: g.songs[at[k]].id.0.clone(), slot });
                    assert(claims@ =~= held_claims + stakes(g.songs@, at@.take(k + 1), slot));
                }
                assert(at@.take(at@.len() as int) =~= at@);
                resident.push(true);
                spent = total;
                over_by.push(0);
                blocked_by.push(None);
                held_back.push(false);
                if cost > 0 {
                    last = Some(g.name.clone());
                }
            } else {
                resident.push(false);
                over_by.push(cost.saturating_sub(budget.saturating_sub(spent)));
                blocked_by.push(copy_opt(&last));
                held_back.push(kept_back > 0 && total <= ceiling);
            }
            assert(walk(gs, sizes@, ceiling as int, slot + 1) == walk_step(
                gs,
                sizes@,
                ceiling as int,
                w,
            ));
        }
        Frontier {
            pins,
            order,
            resident,
            score,
            held,
            over_by,
            blocked_by,
            held_back_by_floor: held_back,
            claims,
            sizes,
            resident_bytes: spent,
            line: Ghost(line_of(*pins, entries@, ceiling, now_unix)),
            entries: Ghost(entries@),
            now_unix,
        }
    }

    /// Where a cached entry stands, and the slot of its group if it has one.
    pub fn standing(&self, id: &String) -> (r: (Standing, usize))
        requires
            self.wf(),
        ensures
            (r.0, r.1 as int) == self.line@.standing(id@),
            !(r.0 is Opportunistic) ==> r.1 < self.order@.len(),
    {
        let ghost line = self.line@;
        if let Some(slot) = find_claim(&self.claims, id) {
            return (Standing::Resident, slot);
        }
        if is_storable_id(id.as_str()) {
            for slot in 0..self.order.len()
                invariant
                    line == self.line@,
                    self.draws(line),
                    deferred_slot(line.groups, line.walk.resident, id@, 0) == deferred_slot(
                        line.groups,
                        line.walk.resident,
                        id@,
                        slot as int,
                    ),
                    claim_slot(self.claims@, id@) is None,
                    storable(id@),
            {
                let g: &PinGroup = &self.pins.groups[self.order[slot]];
                assert(line.groups[slot as int] == *g);
                if !self.resident[slot] && song_listed(&g.songs, id) {
                    return (Standing::Deferred, slot);
                }
            }
        }
        (Standing::Opportunistic, usize::MAX)
    }

    /// An id's byte cost as the frontier accounts for it.
    pub fn size(&self, id: &String) -> (r: u64)
        ensures
            r == size_in(self.sizes@, id@),
    {
        size_of_id(&self.sizes, id)
    }

    /// Whether a slot holds anything of its own.
    fn slot_carries(&self, slot: usize) -> (r: bool)
        ensures
            r == carries(self.claims@, slot as int),
    {
        for k in 0..self.claims.len()
            invariant
                forall|j: int| 0 <= j < k ==> (#[trigger] self.claims@[j]).slot != slot,
        {
            if self.claims[k].slot == slot {
                return true;
            }
        }
        false
    }

    /// Every group in frontier order, with its standing and the evidence it was ranked on.
    pub fn ranked_groups(&self) -> (r: Vec<RankedGroup>)
        requires
            self.wf(),
        ensures
            r@.len() == self.line@.groups.len(),
            forall|k: int|
                0 <= k < r@.len() ==> self.line@.reports(
                    #[trigger] r@[k],
                    self.entries@,
                    self.now_unix,
                    k,
                ),
    {
        let ghost line = self.line@;
        let ghost entries = self.entries@;
        let ghost now_unix = self.now_unix;
        let mut out: Vec<RankedGroup> = Vec::new();
        for slot in 0..self.order.len()
            invariant
                self.draws(line),
                self.evidenced(entries, now_unix),
                out@.len() == slot,
                forall|k: int|
                    0 <= k < slot ==> line.reports(#[trigger] out@[k], entries, now_unix, k),
        {
            let g: &PinGroup = &self.pins.groups[self.order[slot]];
            assert(line.groups[slot as int] == *g);
            let missing: Vec<usize> = fresh_tracks(&g.songs, &self.claims);
            let missing_bytes: u64 = weigh(&g.songs, &self.sizes, &missing);
            let sc: GroupScore = self.score[slot];
            assert(sc.is_of(g.songs@, self.sizes@, now_unix));
            assert(self.held@[slot as int] == holds_any(g.songs@, entries));
            let standing: GroupStanding = if self.slot_carries(slot) {
                GroupStanding::Resident
            } else if missing.len() > 0 {
                GroupStanding::Deferred
            } else if sc.tracks > 0 {
                GroupStanding::Covered
            } else if self.resident[slot] {
                GroupStanding::Resident
            } else {
                GroupStanding::Deferred
            };
            let ranked: RankedGroup = RankedGroup {
                kind: g.kind,
                id: g.id.clone(),
                name: g.name.clone(),
                tier: g.tier,
                standing,
                rank: slot,
                tracks: sc.tracks,
                bytes: sc.bytes,
                missing_tracks: missing.len(),
                missing_bytes,
                cold_decile: sc.cold_decile,
                held: self.held[slot],
                cold_tracks: sc.cold_tracks,
                cold_bytes: sc.cold_bytes,
                never_played: sc.never_played,
                plays: sc.plays,
                last_played_days: sc.last_played_days,
                oldest_played_days: sc.oldest_played_days,
                over_by: self.over_by[slot],
                blocked_by: copy_opt(&self.blocked_by[slot]),
                held_back_by_floor: self.held_back_by_floor[slot],
            };
            assert(line.reports(ranked, entries, now_unix, slot as int));
            out.push(ranked);
        }
        out
    }
}

} // verus!
