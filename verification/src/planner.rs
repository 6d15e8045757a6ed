//! The planner at work: the executable side of a pass's plan.
use crate::budget::{capped, evict_target, pin_ceiling};
use crate::entries::{entry_bytes, find_entry, IndexEntry};
use crate::frontier::{find_claim, Claim, Frontier, Standing};
use crate::model::{Song, SongId};
use crate::names::{is_storable_id, sanitize_suffix, storable};
use crate::pins::{PinGroup, PinTier};
use crate::plan::{
    after_backfill, after_stale, among, as_downloads, as_evictions, bulk_of, bulk_start, busy_ids,
    candidates, claim_bytes, claims_cached, claims_of_tier, demotions, describes, due, enlist,
    enlist_all, evictions, fetching, flushes, freed, gather, goes_before, growth, housekeeping,
    id_order, ids_of, is_pinned, is_protected, judged, marks, marks_at, marks_on, not_due,
    pin_song, plan_of, room_after, run_end, song_with, suspect_fetches, take_from, tier_holds,
    unit_end, verdict, victim_key, victim_of, victim_order, victims, wants_replacement,
    window_fetches, Bulk, DownloadReason, Fetch, PassInput, PassMode, StoreAction, Verdict, Victim,
    VictimKey,
};
use crate::score::{lists, named_before, picked, picks, tracks, weigh, weights_are_natural};
use crate::sorting::{sort_positions, sorting_keeps_elements};
use crate::status::{RankedGroup, StoreStatus, StoreWaiting};
use crate::text::{
    before, before_is_irreflexive, before_is_total, before_is_transitive, comes_before,
};
use crate::time::created_matches;
use vstd::prelude::*;
use vstd::relations::total_ordering;

verus! {

/// Judges one cached entry against what the server now reports.
pub fn fingerprint_verdict(entry: &IndexEntry, server: &Song) -> (r: Verdict)
    ensures
        r == verdict(*entry, *server),
{
    match (&server.size, &server.suffix) {
        (Some(size), Some(suffix)) => {
            let sane: String = sanitize_suffix(Some(suffix.as_str()));
            if *size != entry.size || sane != entry.suffix {
                return Verdict::Differ;
            }
            match (&entry.created, &server.created) {
                (Some(a), Some(b)) => {
                    if created_matches(a.as_str(), b.as_str()) {
                        Verdict::Equal
                    } else {
                        Verdict::Differ
                    }
                },
                _ => Verdict::Equal,
            }
        },
        _ => Verdict::Unknown,
    }
}

/// What a full pass clears away first.
fn clear_away(input: &PassInput) -> (r: Vec<StoreAction>)
    ensures
        r@ == housekeeping(*input),
{
    let mut out: Vec<StoreAction> = Vec::new();
    if input.mode == PassMode::Light {
        return out;
    }
    let ghost a = Seq::new(
        input.stale_tmps@.len(),
        |k: int| StoreAction::SweepTmp(input.stale_tmps@[k]),
    );
    let ghost b = Seq::new(
        input.orphan_audio@.len(),
        |k: int| StoreAction::DeleteFile(input.orphan_audio@[k]),
    );
    let ghost c = Seq::new(
        input.orphan_sidecars@.len(),
        |k: int|
            StoreAction::DeleteEntry {
                id: input.orphan_sidecars@[k].0,
                reason: input.orphan_sidecars@[k].1,
            },
    );
    for i in 0..input.stale_tmps.len()
        invariant
            a == Seq::new(
                input.stale_tmps@.len(),
                |k: int| StoreAction::SweepTmp(input.stale_tmps@[k]),
            ),
            out@ == a.take(i as int),
    {
        out.push(StoreAction::SweepTmp(input.stale_tmps[i].clone()));
    }
    assert(out@ =~= a);
    for i in 0..input.orphan_audio.len()
        invariant
            b == Seq::new(
                input.orphan_audio@.len(),
                |k: int| StoreAction::DeleteFile(input.orphan_audio@[k]),
            ),
            out@ == a + b.take(i as int),
    {
        out.push(StoreAction::DeleteFile(input.orphan_audio[i].clone()));
        assert(out@ =~= a + b.take(i + 1));
    }
    assert(out@ =~= a + b);
    for i in 0..input.orphan_sidecars.len()
        invariant
            c == Seq::new(
                input.orphan_sidecars@.len(),
                |k: int|
                    StoreAction::DeleteEntry {
                        id: input.orphan_sidecars@[k].0,
                        reason: input.orphan_sidecars@[k].1,
                    },
            ),
            out@ == a + b + c.take(i as int),
    {
        out.push(
            StoreAction::DeleteEntry {
                id: input.orphan_sidecars[i].0.clone(),
                reason: input.orphan_sidecars[i].1,
            },
        );
        assert(out@ =~= a + b + c.take(i + 1));
    }
    assert(out@ =~= a + b + c);
    out
}

/// What a pass works with: its input, the frontier and the pinned songs, where it judges.
struct Pass<'a> {
    input: &'a PassInput,
    frontier: Option<Frontier<'a>>,
    songs: Vec<&'a Song>,
}

/// The songs of a list, by reference.
spec fn refers(flat: Seq<&Song>, songs: Seq<Song>) -> bool {
    &&& flat.len() == songs.len()
    &&& forall|i: int| 0 <= i < flat.len() ==> *(#[trigger] flat[i]) == songs[i]
}

impl<'a> Pass<'a> {
    spec fn wf(self) -> bool {
        match self.frontier {
            Some(f) => {
                &&& self.input.judging()
                &&& f.wf()
                &&& f.line@ == self.input.line()
                &&& *f.pins == self.input.pins->0
                &&& f.entries@ == self.input.entries@
                &&& f.now_unix == self.input.now_unix
                &&& refers(self.songs@, self.input.pinned_songs())
            },
            None => !self.input.judging(),
        }
    }

    /// Draws the line, where there is a pin set to draw it through.
    fn new(input: &'a PassInput) -> (r: Pass<'a>)
        ensures
            r.wf(),
            *r.input == *input,
    {
        if input.mode == PassMode::Full {
            if let Some(pins) = &input.pins {
                let ceiling: u64 = pin_ceiling(input.max_bytes);
                let f: Frontier<'a> = Frontier::build(pins, &input.entries, ceiling, input.now_unix);
                let songs: Vec<&'a Song> = pins.songs();
                return Pass { input, frontier: Some(f), songs };
            }
        }
        Pass { input, frontier: None, songs: Vec::new() }
    }

    /// The server's copy of a pinned id.
    fn server_copy(&self, id: &String) -> (r: Option<&Song>)
        requires
            self.wf(),
        ensures
            r is Some <==> pin_song(*self.input, id@) is Some,
            r is Some ==> *(r->0) == pin_song(*self.input, id@)->0,
    {
        if self.frontier.is_none() || !is_storable_id(id.as_str()) {
            return None;
        }
        let ghost songs = self.input.pinned_songs();
        assert(songs.skip(0) =~= songs);
        for i in 0..self.songs.len()
            invariant
                refers(self.songs@, songs),
                song_with(songs, id@) == song_with(songs.skip(i as int), id@),
                pin_song(*self.input, id@) == song_with(songs, id@),
        {
            assert(songs.skip(i as int).drop_first() =~= songs.skip(i + 1));
            let s: &Song = self.songs[i];
            assert(songs.skip(i as int)[0] == *s);
            if s.id.0 == *id {
                return Some(s);
            }
        }
        None
    }

    /// Whether an id is in the pin set.
    fn pins_id(&self, id: &String) -> (r: bool)
        requires
            self.wf(),
            self.input.judging(),
        ensures
            r == is_pinned(*self.input, id@),
    {
        if !is_storable_id(id.as_str()) {
            return false;
        }
        let ghost songs = self.input.pinned_songs();
        for i in 0..self.songs.len()
            invariant
                refers(self.songs@, songs),
                songs == self.input.pinned_songs(),
                storable(id@),
                forall|j: int| 0 <= j < i ==> (#[trigger] songs[j]).id@ != id@,
        {
            let s: &Song = self.songs[i];
            assert(songs[i as int] == *s);
            if s.id.0 == *id {
                return true;
            }
        }
        false
    }

    /// The positions of the distinct pinned songs, in the order of their ids.
    fn judging_order(&self) -> (r: Vec<usize>)
        requires
            self.wf(),
            self.input.judging(),
        ensures
            r@ == judged(self.input.pinned_songs()),
            forall|k: int| 0 <= k < r@.len() ==> (#[trigger] r@[k]) < self.songs@.len(),
    {
        let ghost songs = self.input.pinned_songs();
        let ghost none = Set::<Seq<char>>::empty();
        let mut at: Vec<usize> = Vec::new();
        for i in 0..self.songs.len()
            invariant
                refers(self.songs@, songs),
                none == Set::<Seq<char>>::empty(),
                at@ == picks(songs, none, i as int),
                forall|k: int| 0 <= k < at@.len() ==> (#[trigger] at@[k]) < self.songs@.len(),
        {
            let s: &Song = self.songs[i];
            assert(songs[i as int] == *s);
            let mut again: bool = false;
            for j in 0..i
                invariant
                    refers(self.songs@, songs),
                    i < songs.len(),
                    *s == songs[i as int],
                    again == exists|k: int| 0 <= k < j && (#[trigger] songs[k]).id@ == s.id@,
            {
                let t: &Song = self.songs[j];
                assert(songs[j as int] == *t);
                if t.id.0 == s.id.0 {
                    again = true;
                }
            }
            assert(again == lists(songs.take(i as int), s.id@)) by {
                let front = songs.take(i as int);
                if again {
                    let k = choose|k: int| 0 <= k < i && (#[trigger] songs[k]).id@ == s.id@;
                    assert(front[k].id@ == s.id@);
                }
                if lists(front, s.id@) {
                    let k = choose|k: int| 0 <= k < front.len() && (#[trigger] front[k]).id@ == s.id@;
                    assert(songs[k].id@ == s.id@);
                }
            }
            if is_storable_id(s.id.0.as_str()) && !again {
                assert(picked(songs, none, i as int));
                at.push(i);
            } else {
                assert(!picked(songs, none, i as int));
            }
        }
        let ghost leq = id_order(songs);
        let flat: &Vec<&'a Song> = &self.songs;
        assert forall|x: usize, y: usize| x < flat@.len() && y < flat@.len() implies #[trigger] leq(
            x,
            y,
        ) == (before(flat@[x as int].id@, flat@[y as int].id@) || (flat@[x as int].id@
            == flat@[y as int].id@ && x <= y)) by {
            assert(*flat@[x as int] == songs[x as int]);
            assert(*flat@[y as int] == songs[y as int]);
        }
        let goes_first = |x: usize, y: usize| -> (b: bool)
            requires
                x < flat@.len(),
                y < flat@.len(),
            ensures
                b == leq(x, y),
            {
                let a: &Song = flat[x];
                let c: &Song = flat[y];
                comes_before(a.id.0.as_str(), c.id.0.as_str()) || (a.id.0 == c.id.0 && x <= y)
            };
        proof {
            id_order_is_total(songs);
            sorting_keeps_elements(at@, leq);
        }
        let order: Vec<usize> = sort_positions(&at, goes_first, Ghost(leq));
        assert forall|k: int| 0 <= k < order@.len() implies (#[trigger] order@[k])
            < self.songs@.len() by {
            assert(order@.contains(order@[k]));
            assert(at@.contains(order@[k]));
        }
        order
    }

    /// Every mark of the pass.
    fn mark(&self) -> (r: Vec<StoreAction>)
        requires
            self.wf(),
        ensures
            r@ == marks(*self.input),
    {
        let mut out: Vec<StoreAction> = Vec::new();
        if self.frontier.is_none() {
            return out;
        }
        let ghost songs = self.input.pinned_songs();
        let order: Vec<usize> = self.judging_order();
        for k in 0..order.len()
            invariant
                refers(self.songs@, songs),
                forall|k: int| 0 <= k < order@.len() ==> (#[trigger] order@[k]) < self.songs@.len(),
                out@ == marks_at(songs, self.input.entries@, order@.take(k as int)),
        {
            let ghost done = out@;
            let s: &Song = self.songs[order[k]];
            assert(songs[order@[k as int] as int] == *s);
            assert(order@.take(k + 1).drop_last() =~= order@.take(k as int));
            if let Some(i) = find_entry(&self.input.entries, &s.id.0) {
                let e: &IndexEntry = &self.input.entries[i];
                match fingerprint_verdict(e, s) {
                    Verdict::Differ => {
                        if !e.stale {
                            out.push(StoreAction::SetStale { id: e.id.clone(), stale: true });
                        }
                    },
                    Verdict::Equal => {
                        if e.stale {
                            out.push(StoreAction::SetStale { id: e.id.clone(), stale: false });
                        }
                    },
                    Verdict::Unknown => {},
                }
                if !e.pinned {
                    out.push(StoreAction::SetPinned { id: e.id.clone(), pinned: true });
                }
                assert(out@ =~= done + marks_on(*e, *s));
            } else {
                assert(out@ =~= done + Seq::<StoreAction>::empty());
            }
        }
        assert(order@.take(order@.len() as int) =~= order@);
        let ghost judged_marks = out@;
        assert(out@ =~= judged_marks + demotions(*self.input, 0));
        for i in 0..self.input.entries.len()
            invariant
                self.wf(),
                self.input.judging(),
                out@ == judged_marks + demotions(*self.input, i as int),
        {
            let e: &IndexEntry = &self.input.entries[i];
            if e.pinned && !self.pins_id(&e.id.0) {
                out.push(StoreAction::SetPinned { id: e.id.clone(), pinned: false });
            }
            assert(out@ =~= judged_marks + demotions(*self.input, i + 1));
        }
        out
    }

    /// Whether an entry needs a replacement.
    fn needs_replacement(&self, e: &IndexEntry) -> (r: bool)
        requires
            self.wf(),
        ensures
            r == wants_replacement(*self.input, *e),
    {
        if e.stale {
            return true;
        }
        match (self.server_copy(&e.id.0), find_entry(&self.input.entries, &e.id.0)) {
            (Some(s), Some(i)) => fingerprint_verdict(&self.input.entries[i], s) == Verdict::Differ,
            _ => false,
        }
    }
}

/// Songs are put in order by a total order.
pub proof fn id_order_is_total(songs: Seq<Song>)
    ensures
        total_ordering(id_order(songs)),
{
    let r = id_order(songs);
    assert forall|x: usize, y: usize, z: usize| #[trigger] r(x, y) && #[trigger] r(y, z) implies r(
        x,
        z,
    ) by {
        let a = songs[x as int].id@;
        let b = songs[y as int].id@;
        let c = songs[z as int].id@;
        if before(a, b) && before(b, c) {
            before_is_transitive(a, b, c);
        }
    }
    assert forall|x: usize, y: usize| #[trigger] r(x, y) && #[trigger] r(y, x) implies x == y by {
        before_is_total(songs[x as int].id@, songs[y as int].id@);
        before_is_irreflexive(songs[x as int].id@);
    }
    assert forall|x: usize, y: usize| #[trigger] r(x, y) || #[trigger] r(y, x) by {
        before_is_total(songs[x as int].id@, songs[y as int].id@);
    }
}

/// Whether one of these ids is the given one.
fn names_id(ids: &Vec<SongId>, id: &String) -> (r: bool)
    ensures
        r == exists|k: int| 0 <= k < ids@.len() && (#[trigger] ids@[k])@ == id@,
{
    for k in 0..ids.len()
        invariant
            forall|j: int| 0 <= j < k ==> (#[trigger] ids@[j])@ != id@,
    {
        if ids[k].0 == *id {
            return true;
        }
    }
    false
}

/// The eviction order is one: any two entries are ranked one way or the other.
pub proof fn victim_order_is_total(input: PassInput)
    ensures
        total_ordering(victim_order(input)),
{
    let r = victim_order(input);
    assert forall|x: usize, y: usize, z: usize| #[trigger] r(x, y) && #[trigger] r(y, z) implies r(
        x,
        z,
    ) by {
        let a = victim_key(input, x);
        let b = victim_key(input, y);
        let c = victim_key(input, z);
        before_is_total(a.id, b.id);
        before_is_total(b.id, c.id);
        before_is_total(a.id, c.id);
        if before(a.id, b.id) && before(b.id, c.id) {
            before_is_transitive(a.id, b.id, c.id);
        }
        assert(!goes_before(b, a) && !goes_before(c, b));
        assert(!goes_before(c, a));
    }
    assert forall|x: usize, y: usize| #[trigger] r(x, y) && #[trigger] r(y, x) implies x == y by {
        before_is_total(victim_key(input, x).id, victim_key(input, y).id);
    }
    assert forall|x: usize, y: usize| #[trigger] r(x, y) || #[trigger] r(y, x) by {
        before_is_total(victim_key(input, x).id, victim_key(input, y).id);
    }
    assert forall|x: usize| #[trigger] r(x, x) by {
        before_is_irreflexive(victim_key(input, x).id);
    }
}

/// The key of the victim at a position, from the victims at hand.
spec fn key_in(all: Seq<Victim>, entries: Seq<IndexEntry>, x: usize) -> VictimKey {
    VictimKey {
        turn: all[x as int].standing.turn(),
        group: all[x as int].group as int,
        played: if all[x as int].standing is Opportunistic {
            entries[x as int].last_played_unix as int
        } else {
            0
        },
        id: entries[x as int].id@,
        position: x as int,
    }
}

/// Whether the victim at `x` does not go after the one at `y`.
fn victim_goes_first(all: &Vec<Victim>, entries: &Vec<IndexEntry>, x: usize, y: usize) -> (r: bool)
    requires
        x < all@.len(),
        y < all@.len(),
        all@.len() == entries@.len(),
    ensures
        r == !goes_before(key_in(all@, entries@, y), key_in(all@, entries@, x)),
{
    let a: &Victim = &all[x];
    let c: &Victim = &all[y];
    let d: &IndexEntry = &entries[x];
    let e: &IndexEntry = &entries[y];
    let ta: u8 = turn_of(a.standing);
    let tc: u8 = turn_of(c.standing);
    let pa: u64 = if a.standing == Standing::Opportunistic {
        d.last_played_unix
    } else {
        0
    };
    let pc: u64 = if c.standing == Standing::Opportunistic {
        e.last_played_unix
    } else {
        0
    };
    proof {
        before_is_total(d.id@, e.id@);
    }
    if ta != tc {
        ta < tc
    } else if a.group != c.group {
        a.group < c.group
    } else if pa != pc {
        pa < pc
    } else if d.id.0 != e.id.0 {
        comes_before(d.id.0.as_str(), e.id.0.as_str())
    } else {
        x <= y
    }
}

impl<'a> Pass<'a> {
    /// The victim an entry makes.
    fn victim_at(&self, at: usize) -> (r: Victim)
        requires
            self.wf(),
            at < self.input.entries@.len(),
        ensures
            r == victim_of(*self.input, at),
    {
        match &self.frontier {
            Some(f) => {
                let (standing, slot) = f.standing(&self.input.entries[at].id.0);
                if standing == Standing::Opportunistic {
                    Victim { at, standing, group: 0 }
                } else {
                    Victim { at, standing, group: usize::MAX - slot }
                }
            },
            None => Victim { at, standing: Standing::Opportunistic, group: 0 },
        }
    }

    /// The victims in eviction order.
    fn rank_victims(&self) -> (r: Vec<Victim>)
        requires
            self.wf(),
        ensures
            r@ == victims(*self.input),
            forall|k: int|
                0 <= k < r@.len() ==> (#[trigger] r@[k]).at < self.input.entries@.len(),
    {
        let mut out: Vec<Victim> = Vec::new();
        if self.input.mode == PassMode::Light {
            return out;
        }
        let n: usize = self.input.entries.len();
        let mut all: Vec<Victim> = Vec::new();
        let mut at: Vec<usize> = Vec::new();
        for i in 0..n
            invariant
                self.wf(),
                n == self.input.entries@.len(),
                all@.len() == i,
                forall|k: int|
                    0 <= k < i ==> (#[trigger] all@[k]) == victim_of(*self.input, k as usize),
                at@ == candidates(*self.input, i as int),
                forall|k: int| 0 <= k < at@.len() ==> (#[trigger] at@[k]) < i,
        {
            let e: &IndexEntry = &self.input.entries[i];
            let safe: bool = names_id(&self.input.window, &e.id.0) || names_id(
                &self.input.protected,
                &e.id.0,
            );
            assert(safe == is_protected(*self.input, e.id@));
            all.push(self.victim_at(i));
            if !safe && (self.frontier.is_some() || !e.pinned) {
                at.push(i);
            }
        }
        let ghost leq = victim_order(*self.input);
        let entries: &Vec<IndexEntry> = &self.input.entries;
        assert forall|x: usize, y: usize| x < n && y < n implies #[trigger] leq(x, y)
            == !goes_before(key_in(all@, entries@, y), key_in(all@, entries@, x)) by {
            assert(all@[x as int] == victim_of(*self.input, x));
            assert(all@[y as int] == victim_of(*self.input, y));
            assert(key_in(all@, entries@, x) == victim_key(*self.input, x));
            assert(key_in(all@, entries@, y) == victim_key(*self.input, y));
        }
        let goes_first = |x: usize, y: usize| -> (b: bool)
            requires
                x < n,
                y < n,
            ensures
                b == leq(x, y),
            { victim_goes_first(&all, entries, x, y) };
        proof {
            victim_order_is_total(*self.input);
            sorting_keeps_elements(at@, leq);
        }
        let order: Vec<usize> = sort_positions(&at, goes_first, Ghost(leq));
        let ghost spec_order = candidates(*self.input, n as int).sort_by(leq);
        for k in 0..order.len()
            invariant
                self.wf(),
                n == self.input.entries@.len(),
                order@ == spec_order,
                forall|k: int| 0 <= k < at@.len() ==> (#[trigger] at@[k]) < n,
                forall|x: usize| order@.contains(x) <==> at@.contains(x),
                out@.len() == k,
                forall|j: int|
                    0 <= j < k ==> (#[trigger] out@[j]) == victim_of(*self.input, order@[j]),
                forall|j: int|
                    0 <= j < out@.len() ==> (#[trigger] out@[j]).at < self.input.entries@.len(),
        {
            assert(order@.contains(order@[k as int]));
            assert(at@.contains(order@[k as int]));
            out.push(self.victim_at(order[k]));
        }
        assert(out@ =~= victims(*self.input));
        out
    }
}

/// Place in the eviction order.
fn turn_of(s: Standing) -> (r: u8)
    ensures
        r == s.turn(),
{
    match s {
        Standing::Opportunistic => 0,
        Standing::Deferred => 1,
        Standing::Resident => 2,
    }
}

/// Whether an id is being downloaded.
fn is_fetching(fetches: &Vec<Fetch>, id: &String) -> (r: bool)
    ensures
        r == fetching(fetches@, id@),
{
    for k in 0..fetches.len()
        invariant
            forall|j: int| 0 <= j < k ==> (#[trigger] fetches@[j]).id@ != id@,
    {
        if fetches[k].id.0 == *id {
            return true;
        }
    }
    false
}

/// Whether one of these victims carries an id.
fn is_among(
    vs: &Vec<Victim>,
    entries: &Vec<IndexEntry>,
    got: &Vec<usize>,
    id: &String,
) -> (r: bool)
    requires
        forall|k: int| 0 <= k < vs@.len() ==> (#[trigger] vs@[k]).at < entries@.len(),
        forall|k: int| 0 <= k < got@.len() ==> (#[trigger] got@[k]) < vs@.len(),
    ensures
        r == among(vs@, entries@, got@, id@),
{
    for k in 0..got.len()
        invariant
            forall|k: int| 0 <= k < vs@.len() ==> (#[trigger] vs@[k]).at < entries@.len(),
            forall|k: int| 0 <= k < got@.len() ==> (#[trigger] got@[k]) < vs@.len(),
            forall|j: int|
                0 <= j < k ==> entries@[vs@[(#[trigger] got@[j]) as int].at as int].id@ != id@,
    {
        if entries[vs[got[k]].at].id.0 == *id {
            assert(entries@[vs@[got@[k as int] as int].at as int].id@ == id@);
            return true;
        }
    }
    false
}

/// Takes victims unit by unit until they free `need` bytes or there are no more; returns them
/// and what they free.
fn take_victims(
    vs: &Vec<Victim>,
    entries: &Vec<IndexEntry>,
    fetches: &Vec<Fetch>,
    gone: &Vec<SongId>,
    evicting: bool,
    need: u64,
) -> (r: (Vec<usize>, u64))
    requires
        forall|k: int| 0 <= k < vs@.len() ==> (#[trigger] vs@[k]).at < entries@.len(),
    ensures
        r.0@ == take_from(
            vs@,
            entries@,
            busy_ids(fetches@, gone@),
            evicting,
            need as int,
            Seq::empty(),
            0,
        ),
        r.1 == capped(freed(vs@, entries@, r.0@)),
        forall|k: int| 0 <= k < r.0@.len() ==> (#[trigger] r.0@[k]) < vs@.len(),
{
    let ghost busy = busy_ids(fetches@, gone@);
    let mut got: Vec<usize> = Vec::new();
    let mut bytes: u64 = 0;
    let mut i: usize = 0;
    while i < vs.len() && bytes < need && (evicting || vs[i].standing != Standing::Resident)
        invariant
            forall|k: int| 0 <= k < vs@.len() ==> (#[trigger] vs@[k]).at < entries@.len(),
            busy == busy_ids(fetches@, gone@),
            i <= vs@.len(),
            bytes == capped(freed(vs@, entries@, got@)),
            0 <= freed(vs@, entries@, got@),
            forall|k: int| 0 <= k < got@.len() ==> (#[trigger] got@[k]) < vs@.len(),
            take_from(vs@, entries@, busy, evicting, need as int, Seq::empty(), 0) == take_from(
                vs@,
                entries@,
                busy,
                evicting,
                need as int,
                got@,
                i as int,
            ),
        decreases vs@.len() - i,
    {
        let mut end: usize = i + 1;
        if vs[i].standing != Standing::Opportunistic {
            while end < vs.len() && vs[end].standing == vs[i].standing && vs[end].group
                == vs[i].group
                invariant
                    i < end <= vs@.len(),
                    run_end(vs@, i as int, i + 1) == run_end(vs@, i as int, end as int),
                decreases vs@.len() - end,
            {
                end = end + 1;
            }
        }
        assert(end == unit_end(vs@, i as int));
        let ghost start = got@;
        for k in i..end
            invariant
                forall|k: int| 0 <= k < vs@.len() ==> (#[trigger] vs@[k]).at < entries@.len(),
                busy == busy_ids(fetches@, gone@),
                i < end <= vs@.len(),
                got@ == gather(vs@, entries@, busy, evicting, start, i as int, k as int),
                bytes == capped(freed(vs@, entries@, got@)),
                0 <= freed(vs@, entries@, got@),
                forall|k: int| 0 <= k < got@.len() ==> (#[trigger] got@[k]) < vs@.len(),
        {
            let e: &IndexEntry = &entries[vs[k].at];
            let held: bool = is_fetching(fetches, &e.id.0) || names_id(gone, &e.id.0);
            assert(held == busy.contains(e.id@));
            if !(held || (evicting && is_among(vs, entries, &got, &e.id.0))) {
                let ghost prior = got@;
                got.push(k);
                bytes = bytes.saturating_add(e.size);
                assert(got@.drop_last() =~= prior);
            }
        }
        i = end;
    }
    (got, bytes)
}

/// Adds one download, unless the batch is full, the id cannot be stored or it is being
/// fetched already.
fn enlist_one(
    fetches: &mut Vec<Fetch>,
    batch: usize,
    id: &SongId,
    reason: DownloadReason,
) -> (r: bool)
    ensures
        final(fetches)@ == enlist(old(fetches)@, batch as int, *id, reason),
        r == (final(fetches)@.len() > old(fetches)@.len()),
{
    if fetches.len() >= batch || !is_storable_id(id.0.as_str()) || is_fetching(fetches, &id.0) {
        return false;
    }
    fetches.push(Fetch { id: id.clone(), reason });
    true
}

/// The bulk work of a pass, as executed.
struct BulkWork {
    fetches: Vec<Fetch>,
    headroom: u64,
    on_disk: u64,
    reclaimed: Vec<SongId>,
}

impl BulkWork {
    spec fn is(self, b: Bulk) -> bool {
        &&& self.fetches@ == b.fetches
        &&& self.headroom == b.headroom
        &&& self.on_disk == b.on_disk
        &&& self.reclaimed@ == b.reclaimed
    }
}

/// Bytes of all the entries, as far as 64 bits go.
pub fn total_bytes_of(entries: &Vec<IndexEntry>) -> (r: u64)
    ensures
        r == capped(entry_bytes(entries@, entries@.len() as int)),
{
    let mut sum: u64 = 0;
    for i in 0..entries.len()
        invariant
            sum == capped(entry_bytes(entries@, i as int)),
            0 <= entry_bytes(entries@, i as int),
    {
        sum = sum.saturating_add(entries[i].size);
    }
    sum
}

impl<'a> Pass<'a> {
    /// The audible downloads: suspects, then the window.
    fn start_bulk(&self) -> (r: BulkWork)
        ensures
            r.is(bulk_start(*self.input)),
    {
        let total: u64 = total_bytes_of(&self.input.entries);
        let batch: usize = self.input.download_batch;
        let mut fetches: Vec<Fetch> = Vec::new();
        if self.input.max_bytes > 0 {
            for i in 0..self.input.entries.len()
                invariant
                    batch == self.input.download_batch,
                    fetches@ == suspect_fetches(*self.input, i as int),
            {
                let e: &IndexEntry = &self.input.entries[i];
                if e.suspect {
                    enlist_one(&mut fetches, batch, &e.id, DownloadReason::Suspect);
                }
            }
            for i in 0..self.input.window.len()
                invariant
                    batch == self.input.download_batch,
                    fetches@ == window_fetches(*self.input, i as int),
            {
                let id: &SongId = &self.input.window[i];
                if find_entry(&self.input.entries, &id.0).is_none() {
                    enlist_one(&mut fetches, batch, id, DownloadReason::Window);
                }
            }
        }
        BulkWork {
            fetches,
            headroom: self.input.max_bytes.saturating_sub(total),
            on_disk: total,
            reclaimed: Vec::new(),
        }
    }

    /// By how much a replacement grows the store.
    fn growth_of(&self, e: &IndexEntry) -> (r: u64)
        requires
            self.wf(),
        ensures
            r == growth(*self.input, *e),
    {
        match self.server_copy(&e.id.0) {
            Some(s) => match s.size {
                Some(n) => n.saturating_sub(e.size),
                None => 0,
            },
            None => 0,
        }
    }

    /// The replacements of stale entries.
    fn replace_stale(&self, work: BulkWork) -> (r: BulkWork)
        requires
            self.wf(),
            work.is(bulk_start(*self.input)),
        ensures
            r.is(after_stale(*self.input, self.input.entries@.len() as int)),
    {
        let mut work: BulkWork = work;
        for i in 0..self.input.entries.len()
            invariant
                self.wf(),
                work.is(after_stale(*self.input, i as int)),
        {
            let e: &IndexEntry = &self.input.entries[i];
            if self.needs_replacement(e) {
                let grow: u64 = self.growth_of(e);
                if grow <= work.headroom {
                    if enlist_one(
                        &mut work.fetches,
                        self.input.download_batch,
                        &e.id,
                        DownloadReason::Stale,
                    ) {
                        work.headroom = work.headroom - grow;
                    }
                }
            }
        }
        work
    }

    /// What the group at a slot still has to fetch.
    fn due_tracks(&self, f: &Frontier<'a>, slot: usize) -> (r: Vec<usize>)
        requires
            self.wf(),
            self.input.judging(),
            f.wf(),
            f.line@ == self.input.line(),
            *f.pins == self.input.pins->0,
            slot < f.order@.len(),
        ensures
            r@ == due(*self.input, slot as int),
            forall|k: int|
                0 <= k < r@.len() ==> (#[trigger] r@[k]) < f.pins.groups@[f.order@[slot as int] as int].songs@.len(),
    {
        let g: &PinGroup = &f.pins.groups[f.order[slot]];
        assert(f.line@.groups[slot as int] == *g);
        let ghost skip = not_due(f.line@.walk.claims, self.input.entries@, slot as int);
        let mut out: Vec<usize> = Vec::new();
        for i in 0..g.songs.len()
            invariant
                skip == not_due(f.line@.walk.claims, self.input.entries@, slot as int),
                f.claims@ == f.line@.walk.claims,
                out@ == picks(g.songs@, skip, i as int),
                forall|k: int| 0 <= k < out@.len() ==> (#[trigger] out@[k]) < g.songs@.len(),
        {
            let s: &Song = &g.songs[i];
            let mine: bool = match find_claim(&f.claims, &s.id.0) {
                Some(c) => c == slot,
                None => false,
            };
            let here: bool = find_entry(&self.input.entries, &s.id.0).is_some();
            assert(skip.contains(s.id@) == (!mine || here));
            if mine && !here && is_storable_id(s.id.0.as_str()) && !named_before(&g.songs, i) {
                assert(picked(g.songs@, skip, i as int));
                out.push(i);
            } else {
                assert(!picked(g.songs@, skip, i as int));
            }
        }
        out
    }

    /// One group of the backfill.
    fn backfill_group(&self, f: &Frontier<'a>, vs: &Vec<Victim>, slot: usize, work: BulkWork) -> (r:
        BulkWork)
        requires
            self.wf(),
            self.input.judging(),
            f.wf(),
            f.line@ == self.input.line(),
            *f.pins == self.input.pins->0,
            slot < f.order@.len(),
            vs@ == victims(*self.input),
            forall|k: int|
                0 <= k < vs@.len() ==> (#[trigger] vs@[k]).at < self.input.entries@.len(),
            work.is(after_backfill(*self.input, slot as int)),
        ensures
            r.is(after_backfill(*self.input, slot + 1)),
    {
        let ghost b = after_backfill(*self.input, slot as int);
        let mut work: BulkWork = work;
        let batch: usize = self.input.download_batch;
        let g: &PinGroup = &f.pins.groups[f.order[slot]];
        assert(f.line@.groups[slot as int] == *g);
        let at: Vec<usize> = self.due_tracks(f, slot);
        if work.fetches.len() >= batch || !f.resident[slot] || at.len() == 0 {
            return work;
        }
        let outstanding: u64 = weigh(&g.songs, &f.sizes, &at);
        proof {
            weights_are_natural(g.songs@, f.sizes@, at@);
        }
        if outstanding > work.headroom {
            let want: u64 = outstanding - work.headroom;
            let (got, bytes) = take_victims(
                vs,
                &self.input.entries,
                &work.fetches,
                &work.reclaimed,
                false,
                want,
            );
            let left: u64 = work.on_disk.saturating_sub(bytes);
            let credit: u64 = work.headroom.saturating_add(bytes);
            let budget: u64 = self.input.max_bytes.saturating_sub(left);
            let room: u64 = if credit <= budget {
                credit
            } else {
                budget
            };
            assert(room == room_after(*self.input, b, bytes as int));
            if room < outstanding {
                return work;
            }
            let ghost gone = work.reclaimed@;
            let ghost ids = ids_of(vs@, self.input.entries@, got@);
            for k in 0..got.len()
                invariant
                    forall|k: int|
                        0 <= k < vs@.len() ==> (#[trigger] vs@[k]).at < self.input.entries@.len(),
                    forall|k: int| 0 <= k < got@.len() ==> (#[trigger] got@[k]) < vs@.len(),
                    ids == ids_of(vs@, self.input.entries@, got@),
                    work.reclaimed@ == gone + ids.take(k as int),
                    work.fetches@ == b.fetches,
                    work.headroom == b.headroom,
                    work.on_disk == b.on_disk,
            {
                work.reclaimed.push(self.input.entries[vs[got[k]].at].id.clone());
                assert(work.reclaimed@ =~= gone + ids.take(k + 1));
            }
            assert(ids.take(ids.len() as int) =~= ids);
            work.on_disk = left;
            work.headroom = room;
        }
        let ghost mid = work;
        let n: usize = work.fetches.len();
        for k in 0..at.len()
            invariant
                batch == self.input.download_batch,
                forall|k: int| 0 <= k < at@.len() ==> (#[trigger] at@[k]) < g.songs@.len(),
                work.fetches@ == enlist_all(b.fetches, batch as int, g.songs@, at@, k as int),
                work.headroom == mid.headroom,
                work.on_disk == mid.on_disk,
                work.reclaimed@ == mid.reclaimed@,
        {
            enlist_one(&mut work.fetches, batch, &g.songs[at[k]].id, DownloadReason::Backfill);
        }
        if work.fetches.len() > n {
            work.headroom = work.headroom - outstanding;
        }
        work
    }

    /// All the downloads of the pass, and what is reclaimed for them.
    fn fetch(&self, vs: &Vec<Victim>) -> (r: BulkWork)
        requires
            self.wf(),
            vs@ == victims(*self.input),
            forall|k: int|
                0 <= k < vs@.len() ==> (#[trigger] vs@[k]).at < self.input.entries@.len(),
        ensures
            r.is(bulk_of(*self.input)),
    {
        let work: BulkWork = self.start_bulk();
        if self.input.mode == PassMode::Light || self.input.max_bytes == 0 || self.input.defer_bulk
            || self.input.paused {
            return work;
        }
        let mut work: BulkWork = self.replace_stale(work);
        if let Some(f) = &self.frontier {
            for slot in 0..f.order.len()
                invariant
                    self.wf(),
                    self.input.judging(),
                    f.wf(),
                    f.line@ == self.input.line(),
                    *f.pins == self.input.pins->0,
                    vs@ == victims(*self.input),
                    forall|k: int|
                        0 <= k < vs@.len() ==> (#[trigger] vs@[k]).at < self.input.entries@.len(),
                    work.is(after_backfill(*self.input, slot as int)),
            {
                work = self.backfill_group(f, vs, slot, work);
            }
        }
        work
    }

    /// What an over-full store evicts last of all.
    fn evict(&self, vs: &Vec<Victim>, work: &BulkWork) -> (r: Vec<SongId>)
        requires
            vs@ == victims(*self.input),
            forall|k: int|
                0 <= k < vs@.len() ==> (#[trigger] vs@[k]).at < self.input.entries@.len(),
            work.is(bulk_of(*self.input)),
        ensures
            r@ == evictions(*self.input),
    {
        let mut out: Vec<SongId> = Vec::new();
        let floor: u64 = evict_target(
            self.input.max_bytes,
            self.input.configured_max,
            self.input.avail,
        );
        if self.input.mode == PassMode::Light || work.on_disk <= floor {
            return out;
        }
        let (got, _bytes) = take_victims(
            vs,
            &self.input.entries,
            &work.fetches,
            &work.reclaimed,
            true,
            work.on_disk - floor,
        );
        let ghost ids = ids_of(vs@, self.input.entries@, got@);
        for k in 0..got.len()
            invariant
                forall|k: int|
                    0 <= k < vs@.len() ==> (#[trigger] vs@[k]).at < self.input.entries@.len(),
                forall|k: int| 0 <= k < got@.len() ==> (#[trigger] got@[k]) < vs@.len(),
                ids == ids_of(vs@, self.input.entries@, got@),
                out@ == ids.take(k as int),
        {
            out.push(self.input.entries[vs[got[k]].at].id.clone());
        }
        assert(ids.take(ids.len() as int) =~= ids);
        out
    }

    /// How many tracks one tier holds, and their bytes.
    fn tier_total(&self, f: &Frontier<'a>, tier: PinTier) -> (r: (usize, u64))
        requires
            f.wf(),
        ensures
            tier_holds(f.line@, f.claims@, tier, r.0, r.1),
    {
        reveal(Seq::filter);
        let ghost line = f.line@;
        let mut tracks: usize = 0;
        let mut bytes: u64 = 0;
        assert(f.claims@.take(0) =~= Seq::<Claim>::empty());
        for k in 0..f.claims.len()
            invariant
                f.wf(),
                line == f.line@,
                tracks <= k,
                tier_holds(line, f.claims@.take(k as int), tier, tracks, bytes),
                0 <= claim_bytes(line, claims_of_tier(line, f.claims@.take(k as int), tier)),
        {
            reveal(Seq::filter);
            let c: &Claim = &f.claims[k];
            let ghost done = f.claims@.take(k as int);
            let ghost next = f.claims@.take(k + 1);
            assert(next.drop_last() =~= done);
            assert(next.last() == *c);
            let g: &PinGroup = &f.pins.groups[f.order[c.slot]];
            assert(line.groups[c.slot as int] == *g);
            let ghost own = claims_of_tier(line, done, tier);
            assert(own.push(*c).drop_last() =~= own);
            if g.tier == tier {
                assert(claims_of_tier(line, next, tier) == own.push(*c));
                tracks = tracks + 1;
                bytes = bytes.saturating_add(f.size(&c.id));
            } else {
                assert(claims_of_tier(line, next, tier) == own);
            }
        }
        assert(f.claims@.take(f.claims@.len() as int) =~= f.claims@);
        (tracks, bytes)
    }

    /// The self-description of a pass that judged.
    fn describe(&self, f: &Frontier<'a>) -> (r: StoreStatus)
        requires
            self.wf(),
            self.input.judging(),
            f.wf(),
            f.line@ == self.input.line(),
            f.entries@ == self.input.entries@,
            f.now_unix == self.input.now_unix,
            *f.pins == self.input.pins->0,
        ensures
            describes(r, *self.input),
    {
        reveal(Seq::filter);
        let ghost line = f.line@;
        let ghost entries = self.input.entries@;
        let mut here: usize = 0;
        let mut missing: usize = 0;
        let mut missing_bytes: u64 = 0;
        for k in 0..f.claims.len()
            invariant
                f.wf(),
                line == f.line@,
                entries == self.input.entries@,
                here == claims_cached(f.claims@.take(k as int), entries, true).len(),
                missing == claims_cached(f.claims@.take(k as int), entries, false).len(),
                here <= k,
                missing <= k,
                missing_bytes == capped(
                    claim_bytes(line, claims_cached(f.claims@.take(k as int), entries, false)),
                ),
                0 <= claim_bytes(line, claims_cached(f.claims@.take(k as int), entries, false)),
        {
            reveal(Seq::filter);
            let c: &Claim = &f.claims[k];
            let ghost done = f.claims@.take(k as int);
            let ghost next = f.claims@.take(k + 1);
            assert(next.drop_last() =~= done);
            assert(next.last() == *c);
            let is_here: bool = find_entry(&self.input.entries, &c.id).is_some();
            proof {
                let a = claims_cached(done, entries, true);
                let b = claims_cached(done, entries, false);
                assert(b.push(*c).drop_last() =~= b);
                if is_here {
                    assert(claims_cached(next, entries, true) == a.push(*c));
                    assert(claims_cached(next, entries, false) == b);
                } else {
                    assert(claims_cached(next, entries, true) == a);
                    assert(claims_cached(next, entries, false) == b.push(*c));
                }
            }
            if is_here {
                here = here + 1;
            } else {
                missing = missing + 1;
                missing_bytes = missing_bytes.saturating_add(f.size(&c.id));
            }
        }
        assert(f.claims@.take(f.claims@.len() as int) =~= f.claims@);
        let songs: (usize, u64) = self.tier_total(f, PinTier::Song);
        let albums: (usize, u64) = self.tier_total(f, PinTier::Album);
        let artists: (usize, u64) = self.tier_total(f, PinTier::Artist);
        let waiting: StoreWaiting = if self.input.max_bytes == 0 {
            StoreWaiting::ReserveBreached
        } else if self.input.paused {
            StoreWaiting::Paused
        } else if self.input.defer_bulk {
            StoreWaiting::PlaybackRemote
        } else {
            StoreWaiting::NotWaiting
        };
        let ranked: Vec<RankedGroup> = f.ranked_groups();
        StoreStatus {
            known: true,
            bytes: total_bytes_of(&self.input.entries),
            entries: self.input.entries.len(),
            configured_max: self.input.configured_max,
            effective_max: self.input.max_bytes,
            budget_source: self.input.budget_source,
            reserve: self.input.reserve,
            avail: self.input.avail,
            fs_total: self.input.fs_total,
            resident_tracks: f.claims.len(),
            resident_bytes: f.resident_bytes,
            cached_tracks: here,
            pending_tracks: missing,
            pending_bytes: missing_bytes,
            tier_tracks: [songs.0, albums.0, artists.0],
            tier_bytes: [songs.1, albums.1, artists.1],
            frontier: ranked,
            given_up: 0,
            waiting,
        }
    }
}

/// Plans one reconcile pass: what to do, in the order of execution.
pub fn plan_pass(input: &PassInput) -> (r: Vec<StoreAction>)
    ensures
        r@ == plan_of(*input),
{
    plan_pass_with_status(input).0
}

/// Plans one reconcile pass, and describes the store where the pass had a pin set to judge by.
pub fn plan_pass_with_status(input: &PassInput) -> (r: (Vec<StoreAction>, Option<StoreStatus>))
    ensures
        r.0@ == plan_of(*input),
        r.1 is Some <==> input.judging(),
        r.1 is Some ==> describes(r.1->0, *input),
{
    let pass: Pass = Pass::new(input);
    let mut out: Vec<StoreAction> = clear_away(input);
    let mut set: Vec<StoreAction> = pass.mark();
    out.append(&mut set);
    let vs: Vec<Victim> = pass.rank_victims();
    let work: BulkWork = pass.fetch(&vs);
    let last: Vec<SongId> = pass.evict(&vs, &work);
    let ghost b = bulk_of(*input);
    let ghost front = housekeeping(*input) + marks(*input);
    assert(out@ == front);
    for k in 0..work.reclaimed.len()
        invariant
            work.reclaimed@ == b.reclaimed,
            out@ == front + as_evictions(b.reclaimed).take(k as int),
    {
        out.push(StoreAction::Evict(work.reclaimed[k].clone()));
        assert(out@ =~= front + as_evictions(b.reclaimed).take(k + 1));
    }
    let ghost second = front + as_evictions(b.reclaimed);
    assert(out@ =~= second);
    for k in 0..work.fetches.len()
        invariant
            work.fetches@ == b.fetches,
            out@ == second + as_downloads(b.fetches).take(k as int),
    {
        out.push(
            StoreAction::Download {
                id: work.fetches[k].id.clone(),
                reason: work.fetches[k].reason,
            },
        );
        assert(out@ =~= second + as_downloads(b.fetches).take(k + 1));
    }
    let ghost third = second + as_downloads(b.fetches);
    assert(out@ =~= third);
    let ghost mut flushed: Seq<StoreAction> = Seq::empty();
    if input.mode == PassMode::Full {
        for i in 0..input.entries.len()
            invariant
                out@ == third + flushes(*input, i as int),
        {
            let e: &IndexEntry = &input.entries[i];
            if e.recency_dirty {
                out.push(
                    StoreAction::FlushRecency {
                        id: e.id.clone(),
                        last_played_unix: e.last_played_unix,
                    },
                );
            }
            assert(out@ =~= third + flushes(*input, i + 1));
        }
        proof {
            flushed = flushes(*input, input.entries@.len() as int);
        }
    }
    let ghost fourth = third + flushed;
    assert(out@ =~= fourth);
    for k in 0..last.len()
        invariant
            last@ == evictions(*input),
            out@ == fourth + as_evictions(last@).take(k as int),
    {
        out.push(StoreAction::Evict(last[k].clone()));
        assert(out@ =~= fourth + as_evictions(last@).take(k + 1));
    }
    assert(out@ =~= fourth + as_evictions(last@));
    let status: Option<StoreStatus> = match &pass.frontier {
        Some(f) => Some(pass.describe(f)),
        None => None,
    };
    (out, status)
}

} // verus!
