//! The pass planner: a pure function from what a pass can see to what it should do, in the
//! order of execution.
use crate::budget::{capped, ceiling_of, eviction_floor, least, most, BudgetSource};
use crate::entries::{cached, entry_bytes, entry_with, DeleteReason, IndexEntry};
use crate::frontier::{claim_slot, line_of, Claim, Line, Standing};
use crate::model::{Song, SongId};
use crate::names::{sanitized, storable};
use crate::pins::{PinSet, PinTier};
use crate::score::{lists, own_tracks, tracks, weight};
use crate::status::{StoreStatus, StoreWaiting};
use crate::text::before;
use crate::time::same_moment;
use vstd::prelude::*;

verus! {

/// How many downloads one pass may schedule.
pub const DOWNLOAD_BATCH: usize = 4;

/// How much of the reconcile a pass may do.
#[derive(Clone, Copy, Debug, PartialEq, Eq, Structural)]
pub enum PassMode {
    /// Cached state only: window downloads and suspect replacements.
    Light,
    /// Everything: housekeeping, verdicts, downloads, recency, eviction.
    Full,
}

/// Why a download was scheduled, in order of priority.
#[derive(Clone, Copy, Debug, PartialEq, Eq, PartialOrd, Ord, Structural)]
pub enum DownloadReason {
    /// Replaces bytes that failed to play.
    Suspect,
    /// In the queue window, with nothing cached.
    Window,
    /// The original changed; the old bytes serve until this lands.
    Stale,
    /// A pin with nothing cached yet.
    Backfill,
}

/// One thing the reconciler should do.
#[allow(inconsistent_fields)]
#[derive(Debug, PartialEq)]
pub enum StoreAction {
    /// Delete a temporary left by a dead download.
    SweepTmp(String),
    /// Delete a loose file that no valid sidecar accounts for.
    DeleteFile(String),
    /// Delete both files of an entry that cannot be valid.
    DeleteEntry { id: SongId, reason: DeleteReason },
    /// Rewrite the sidecar's `stale` flag. A stale entry keeps serving.
    SetStale { id: SongId, stale: bool },
    /// Rewrite the sidecar's `pinned` flag. A demoted entry keeps its bytes.
    SetPinned { id: SongId, pinned: bool },
    /// Fetch a song's original and commit it.
    Download { id: SongId, reason: DownloadReason },
    /// Write out a recency bump.
    FlushRecency { id: SongId, last_played_unix: u64 },
    /// Reclaim an unprotected entry.
    Evict(SongId),
}

/// Everything one pass gets to look at.
#[derive(Debug)]
pub struct PassInput {
    pub mode: PassMode,
    /// The pin set of this pass. `None` where none is authoritative: a light pass, or a
    /// server that could not be asked.
    pub pins: Option<PinSet>,
    /// The current song and the next ones, in play order.
    pub window: Vec<SongId>,
    /// More ids that must not be evicted. As a set: order and repeats mean nothing.
    pub protected: Vec<SongId>,
    /// The valid entries.
    pub entries: Vec<IndexEntry>,
    /// What a scan found that must go. A light pass ignores it.
    pub orphan_audio: Vec<String>,
    pub orphan_sidecars: Vec<(SongId, DeleteReason)>,
    pub stale_tmps: Vec<String>,
    /// The effective budget. Zero means that the free-space reserve is breached.
    pub max_bytes: u64,
    /// The configured cap.
    pub configured_max: u64,
    pub budget_source: BudgetSource,
    pub reserve: u64,
    pub avail: u64,
    pub fs_total: u64,
    /// Cap on downloads in this pass.
    pub download_batch: usize,
    /// The deck plays off the network: bulk work waits.
    pub defer_bulk: bool,
    /// Bulk work is suspended by hand.
    pub paused: bool,
    /// Calendar now, in epoch seconds.
    pub now_unix: u64,
}

/// Two pin sets with the same contents.
pub open spec fn same_pins(a: Option<PinSet>, b: Option<PinSet>) -> bool {
    match (a, b) {
        (Some(x), Some(y)) => x.groups@.len() == y.groups@.len() && forall|i: int|
            0 <= i < x.groups@.len() ==> (#[trigger] x.groups@[i]).same_as(y.groups@[i]),
        (None, None) => true,
        _ => false,
    }
}

impl Clone for PassInput {
    fn clone(&self) -> (r: Self)
        ensures
            same_pins(r.pins, self.pins),
            r.window@ == self.window@,
            r.protected@ == self.protected@,
            r.entries@ == self.entries@,
            r.orphan_audio@ == self.orphan_audio@,
            r.orphan_sidecars@ == self.orphan_sidecars@,
            r.stale_tmps@ == self.stale_tmps@,
            r == (PassInput {
                pins: r.pins,
                window: r.window,
                protected: r.protected,
                entries: r.entries,
                orphan_audio: r.orphan_audio,
                orphan_sidecars: r.orphan_sidecars,
                stale_tmps: r.stale_tmps,
                ..*self
            }),
    {
        PassInput {
            mode: self.mode,
            pins: match &self.pins {
                Some(p) => Some(p.clone()),
                None => None,
            },
            window: copy_ids(&self.window),
            protected: copy_ids(&self.protected),
            entries: copy_entries(&self.entries),
            orphan_audio: copy_names(&self.orphan_audio),
            orphan_sidecars: copy_doomed(&self.orphan_sidecars),
            stale_tmps: copy_names(&self.stale_tmps),
            max_bytes: self.max_bytes,
            configured_max: self.configured_max,
            budget_source: self.budget_source,
            reserve: self.reserve,
            avail: self.avail,
            fs_total: self.fs_total,
            download_batch: self.download_batch,
            defer_bulk: self.defer_bulk,
            paused: self.paused,
            now_unix: self.now_unix,
        }
    }
}

/// Copies a list of ids.
pub fn copy_ids(ids: &Vec<SongId>) -> (r: Vec<SongId>)
    ensures
        r@ == ids@,
{
    let mut out: Vec<SongId> = Vec::new();
    for k in 0..ids.len()
        invariant
            out@ == ids@.take(k as int),
    {
        out.push(ids[k].clone());
    }
    assert(ids@.take(ids@.len() as int) =~= ids@);
    out
}

/// Copies a list of entries.
fn copy_entries(entries: &Vec<IndexEntry>) -> (r: Vec<IndexEntry>)
    ensures
        r@ == entries@,
{
    let mut out: Vec<IndexEntry> = Vec::new();
    for k in 0..entries.len()
        invariant
            out@ == entries@.take(k as int),
    {
        out.push(entries[k].clone());
    }
    assert(entries@.take(entries@.len() as int) =~= entries@);
    out
}

/// Copies a list of names.
fn copy_names(names: &Vec<String>) -> (r: Vec<String>)
    ensures
        r@ == names@,
{
    let mut out: Vec<String> = Vec::new();
    for k in 0..names.len()
        invariant
            out@ == names@.take(k as int),
    {
        out.push(names[k].clone());
    }
    assert(names@.take(names@.len() as int) =~= names@);
    out
}

/// Copies a list of ids that must go.
fn copy_doomed(list: &Vec<(SongId, DeleteReason)>) -> (r: Vec<(SongId, DeleteReason)>)
    ensures
        r@ == list@,
{
    let mut out: Vec<(SongId, DeleteReason)> = Vec::new();
    for k in 0..list.len()
        invariant
            out@ == list@.take(k as int),
    {
        out.push((list[k].0.clone(), list[k].1));
    }
    assert(list@.take(list@.len() as int) =~= list@);
    out
}

impl PassInput {
    /// A pass over nothing.
    pub fn new(mode: PassMode, max_bytes: u64) -> (r: PassInput)
        ensures
            r.mode == mode,
            r.max_bytes == max_bytes,
            r.configured_max == max_bytes,
            r.pins is None,
            r.window@.len() == 0 && r.protected@.len() == 0 && r.entries@.len() == 0,
            r.orphan_audio@.len() == 0 && r.orphan_sidecars@.len() == 0 && r.stale_tmps@.len() == 0,
            r.budget_source == BudgetSource::Config,
            r.reserve == 0 && r.avail == 0 && r.fs_total == 0,
            r.download_batch == DOWNLOAD_BATCH,
            !r.defer_bulk && !r.paused,
            r.now_unix == 0,
    {
        PassInput {
            mode,
            pins: None,
            window: Vec::new(),
            protected: Vec::new(),
            entries: Vec::new(),
            orphan_audio: Vec::new(),
            orphan_sidecars: Vec::new(),
            stale_tmps: Vec::new(),
            max_bytes,
            configured_max: max_bytes,
            budget_source: BudgetSource::Config,
            reserve: 0,
            avail: 0,
            fs_total: 0,
            download_batch: DOWNLOAD_BATCH,
            defer_bulk: false,
            paused: false,
            now_unix: 0,
        }
    }

    /// A full pass.
    pub open spec fn full(self) -> bool {
        self.mode == PassMode::Full
    }

    /// A full pass with an authoritative pin set: the only one that forms verdicts.
    pub open spec fn judging(self) -> bool {
        self.full() && self.pins is Some
    }

    /// The line through the pin set.
    pub open spec fn line(self) -> Line {
        line_of(
            self.pins->0,
            self.entries@,
            ceiling_of(self.max_bytes as int) as u64,
            self.now_unix,
        )
    }

    /// Every song the pin set names.
    pub open spec fn pinned_songs(self) -> Seq<Song> {
        self.pins->0.all_songs()
    }

    /// Writing is allowed at all.
    pub open spec fn may_write(self) -> bool {
        self.max_bytes > 0
    }

    /// Bulk work is due.
    pub open spec fn may_bulk(self) -> bool {
        self.full() && self.may_write() && !self.defer_bulk && !self.paused
    }

    /// Bytes on disk as the pass finds them.
    pub open spec fn total_bytes(self) -> int {
        capped(entry_bytes(self.entries@, self.entries@.len() as int))
    }
}

// Housekeeping.

/// What a full pass clears away before anything else.
pub open spec fn housekeeping(input: PassInput) -> Seq<StoreAction> {
    if input.full() {
        Seq::new(input.stale_tmps@.len(), |k: int| StoreAction::SweepTmp(input.stale_tmps@[k]))
            + Seq::new(
            input.orphan_audio@.len(),
            |k: int| StoreAction::DeleteFile(input.orphan_audio@[k]),
        ) + Seq::new(
            input.orphan_sidecars@.len(),
            |k: int|
                StoreAction::DeleteEntry {
                    id: input.orphan_sidecars@[k].0,
                    reason: input.orphan_sidecars@[k].1,
                },
        )
    } else {
        Seq::empty()
    }
}

// Verdicts.

/// How a cached entry compares with what the server now reports.
#[derive(Clone, Copy, Debug, PartialEq, Eq, Structural)]
pub enum Verdict {
    /// The same bytes.
    Equal,
    /// The original changed under a stable id.
    Differ,
    /// The server did not report enough to judge. No sign of change.
    Unknown,
}

/// The verdict on an entry: its size and suffix must agree, and its `created` instant where
/// both sides have one.
pub open spec fn verdict(e: IndexEntry, s: Song) -> Verdict {
    match (s.size, s.suffix) {
        (Some(size), Some(suffix)) => if size != e.size || sanitized(Some(suffix@)) != e.suffix@ {
            Verdict::Differ
        } else {
            match (e.created, s.created) {
                (Some(a), Some(b)) => if same_moment(a@, b@) {
                    Verdict::Equal
                } else {
                    Verdict::Differ
                },
                _ => Verdict::Equal,
            }
        },
        _ => Verdict::Unknown,
    }
}

/// The first song of a list with an id.
pub open spec fn song_with(songs: Seq<Song>, id: Seq<char>) -> Option<Song>
    decreases songs.len(),
{
    if songs.len() == 0 {
        None
    } else if songs[0].id@ == id {
        Some(songs[0])
    } else {
        song_with(songs.drop_first(), id)
    }
}

/// The server's copy of a pinned id.
pub open spec fn pin_song(input: PassInput, id: Seq<char>) -> Option<Song> {
    if input.judging() && storable(id) {
        song_with(input.pinned_songs(), id)
    } else {
        None
    }
}

/// Whether an id is in the pin set.
pub open spec fn is_pinned(input: PassInput, id: Seq<char>) -> bool {
    storable(id) && lists(input.pinned_songs(), id)
}

/// The order of ids over positions of a list of songs.
pub open spec fn id_order(songs: Seq<Song>) -> spec_fn(usize, usize) -> bool {
    |x: usize, y: usize|
        before(songs[x as int].id@, songs[y as int].id@) || (songs[x as int].id@
            == songs[y as int].id@ && x <= y)
}

/// The marks that follow from one verdict.
pub open spec fn marks_on(e: IndexEntry, s: Song) -> Seq<StoreAction> {
    let stale = match verdict(e, s) {
        Verdict::Differ => if !e.stale {
            seq![StoreAction::SetStale { id: e.id, stale: true }]
        } else {
            Seq::empty()
        },
        Verdict::Equal => if e.stale {
            seq![StoreAction::SetStale { id: e.id, stale: false }]
        } else {
            Seq::empty()
        },
        Verdict::Unknown => Seq::empty(),
    };
    if e.pinned {
        stale
    } else {
        stale.push(StoreAction::SetPinned { id: e.id, pinned: true })
    }
}

/// The marks on the cached songs at these positions.
pub open spec fn marks_at(
    songs: Seq<Song>,
    entries: Seq<IndexEntry>,
    at: Seq<usize>,
) -> Seq<StoreAction>
    decreases at.len(),
{
    if at.len() == 0 {
        Seq::empty()
    } else {
        let s = songs[at.last() as int];
        marks_at(songs, entries, at.drop_last()) + match entry_with(entries, s.id@) {
            Some(e) => marks_on(e, s),
            None => Seq::empty(),
        }
    }
}

/// The demotions among the first `n` entries: pinned once, and in the pin set no more.
pub open spec fn demotions(input: PassInput, n: int) -> Seq<StoreAction>
    decreases n,
{
    if n <= 0 {
        Seq::empty()
    } else {
        let e = input.entries@[n - 1];
        if e.pinned && !is_pinned(input, e.id@) {
            demotions(input, n - 1).push(StoreAction::SetPinned { id: e.id, pinned: false })
        } else {
            demotions(input, n - 1)
        }
    }
}

/// The positions of the distinct pinned songs, in the order of their ids.
pub open spec fn judged(songs: Seq<Song>) -> Seq<usize> {
    own_tracks(songs).sort_by(id_order(songs))
}

/// Every mark of a pass.
pub open spec fn marks(input: PassInput) -> Seq<StoreAction> {
    if input.judging() {
        marks_at(input.pinned_songs(), input.entries@, judged(input.pinned_songs())) + demotions(
            input,
            input.entries@.len() as int,
        )
    } else {
        Seq::empty()
    }
}

/// Whether an id's entry was found to have drifted.
pub open spec fn drifted(input: PassInput, id: Seq<char>) -> bool {
    match (pin_song(input, id), entry_with(input.entries@, id)) {
        (Some(s), Some(e)) => verdict(e, s) == Verdict::Differ,
        _ => false,
    }
}

/// Whether an entry needs a replacement: marked stale before, or found to have drifted now.
pub open spec fn wants_replacement(input: PassInput, e: IndexEntry) -> bool {
    e.stale || drifted(input, e.id@)
}

// Victims.

/// An entry that may be evicted.
pub struct Victim {
    /// Its position among the entries.
    pub at: usize,
    pub standing: Standing,
    /// Groups go from the tail of the frontier: the later the slot, the smaller this.
    pub group: usize,
}

/// What victims are ordered by.
pub struct VictimKey {
    pub turn: int,
    pub group: int,
    pub played: int,
    pub id: Seq<char>,
    pub position: int,
}

/// Whether one victim goes before another.
pub open spec fn goes_before(a: VictimKey, b: VictimKey) -> bool {
    if a.turn != b.turn {
        a.turn < b.turn
    } else if a.group != b.group {
        a.group < b.group
    } else if a.played != b.played {
        a.played < b.played
    } else if a.id != b.id {
        before(a.id, b.id)
    } else {
        a.position < b.position
    }
}

/// The victim an entry makes.
pub open spec fn victim_of(input: PassInput, at: usize) -> Victim {
    if input.judging() {
        let (standing, slot) = input.line().standing(input.entries@[at as int].id@);
        Victim {
            at,
            standing,
            group: if standing is Opportunistic {
                0
            } else {
                (usize::MAX - slot) as usize
            },
        }
    } else {
        Victim { at, standing: Standing::Opportunistic, group: 0 }
    }
}

/// The key of the victim an entry makes. Only opportunistic bytes go by their last play.
pub open spec fn victim_key(input: PassInput, at: usize) -> VictimKey {
    let v = victim_of(input, at);
    let e = input.entries@[at as int];
    VictimKey {
        turn: v.standing.turn(),
        group: v.group as int,
        played: if v.standing is Opportunistic {
            e.last_played_unix as int
        } else {
            0
        },
        id: e.id@,
        position: at as int,
    }
}

/// The eviction order over positions of the entries.
pub open spec fn victim_order(input: PassInput) -> spec_fn(usize, usize) -> bool {
    |x: usize, y: usize| !goes_before(victim_key(input, y), victim_key(input, x))
}

/// An id of the queue window, or explicitly protected.
pub open spec fn is_protected(input: PassInput, id: Seq<char>) -> bool {
    ||| exists|k: int| 0 <= k < input.window@.len() && (#[trigger] input.window@[k])@ == id
    ||| exists|k: int| 0 <= k < input.protected@.len() && (#[trigger] input.protected@[k])@ == id
}

/// An entry that may be evicted: not protected, and without a pin set not pinned either.
pub open spec fn evictable(input: PassInput, e: IndexEntry) -> bool {
    !is_protected(input, e.id@) && (input.judging() || !e.pinned)
}

/// Positions below `n` of the evictable entries.
pub open spec fn candidates(input: PassInput, n: int) -> Seq<usize>
    decreases n,
{
    if n <= 0 {
        Seq::empty()
    } else if evictable(input, input.entries@[n - 1]) {
        candidates(input, n - 1).push((n - 1) as usize)
    } else {
        candidates(input, n - 1)
    }
}

/// The victims in eviction order.
pub open spec fn victims(input: PassInput) -> Seq<Victim> {
    if input.full() {
        let order = candidates(input, input.entries@.len() as int).sort_by(victim_order(input));
        Seq::new(order.len(), |k: int| victim_of(input, order[k]))
    } else {
        Seq::empty()
    }
}

/// Where the unit that begins at `i` ends: a single entry, or the run of a whole group.
pub open spec fn unit_end(vs: Seq<Victim>, i: int) -> int {
    if vs[i].standing is Opportunistic {
        i + 1
    } else {
        run_end(vs, i, i + 1)
    }
}

/// Where the run of the group at `i` ends, from `j` on.
pub open spec fn run_end(vs: Seq<Victim>, i: int, j: int) -> int
    decreases vs.len() - j,
{
    if j < vs.len() && vs[j].standing == vs[i].standing && vs[j].group == vs[i].group {
        run_end(vs, i, j + 1)
    } else {
        j
    }
}

/// Bytes of the victims at these positions of the eviction order.
pub open spec fn freed(vs: Seq<Victim>, entries: Seq<IndexEntry>, got: Seq<usize>) -> int
    decreases got.len(),
{
    if got.len() == 0 {
        0
    } else {
        freed(vs, entries, got.drop_last()) + entries[vs[got.last() as int].at as int].size
    }
}

/// Whether one of these victims carries an id.
pub open spec fn among(
    vs: Seq<Victim>,
    entries: Seq<IndexEntry>,
    got: Seq<usize>,
    id: Seq<char>,
) -> bool {
    exists|k: int|
        0 <= k < got.len() && entries[vs[(#[trigger] got[k]) as int].at as int].id@ == id
}

/// What is taken of the unit up to `j`: each member that is not busy (and, when evicting, not
/// an id that was taken already).
pub open spec fn gather(
    vs: Seq<Victim>,
    entries: Seq<IndexEntry>,
    busy: Set<Seq<char>>,
    evicting: bool,
    got: Seq<usize>,
    i: int,
    j: int,
) -> Seq<usize>
    decreases j - i,
{
    if j <= i {
        got
    } else {
        let g = gather(vs, entries, busy, evicting, got, i, j - 1);
        let id = entries[vs[j - 1].at as int].id@;
        if busy.contains(id) || (evicting && among(vs, entries, g, id)) {
            g
        } else {
            g.push((j - 1) as usize)
        }
    }
}

/// The victims taken, unit by unit in eviction order, until they free `need` bytes. A group
/// above the line is taken only when `evicting`, never to make room for another.
pub open spec fn take_from(
    vs: Seq<Victim>,
    entries: Seq<IndexEntry>,
    busy: Set<Seq<char>>,
    evicting: bool,
    need: int,
    got: Seq<usize>,
    i: int,
) -> Seq<usize>
    decreases vs.len() - i,
{
    if i >= vs.len() || freed(vs, entries, got) >= need || (!evicting && vs[i].standing is Resident) {
        got
    } else {
        proof {
            run_end_is_ahead(vs, i, i + 1);
        }
        take_from(
            vs,
            entries,
            busy,
            evicting,
            need,
            gather(vs, entries, busy, evicting, got, i, unit_end(vs, i)),
            unit_end(vs, i),
        )
    }
}

/// A unit is never empty.
pub proof fn run_end_is_ahead(vs: Seq<Victim>, i: int, j: int)
    ensures
        j <= run_end(vs, i, j),
        j <= vs.len() ==> run_end(vs, i, j) <= vs.len(),
    decreases vs.len() - j,
{
    if j < vs.len() && vs[j].standing == vs[i].standing && vs[j].group == vs[i].group {
        run_end_is_ahead(vs, i, j + 1);
    }
}

/// The ids of the victims taken.
pub open spec fn ids_of(vs: Seq<Victim>, entries: Seq<IndexEntry>, got: Seq<usize>) -> Seq<SongId> {
    Seq::new(got.len(), |k: int| entries[vs[got[k] as int].at as int].id)
}

// Downloads.

/// One download.
pub struct Fetch {
    pub id: SongId,
    pub reason: DownloadReason,
}

/// Whether an id is being downloaded.
pub open spec fn fetching(fetches: Seq<Fetch>, id: Seq<char>) -> bool {
    exists|k: int| 0 <= k < fetches.len() && (#[trigger] fetches[k]).id@ == id
}

/// One download more, unless the batch is full, the id cannot be stored, or it is already
/// being fetched: the first reason stands.
pub open spec fn enlist(
    fetches: Seq<Fetch>,
    batch: int,
    id: SongId,
    reason: DownloadReason,
) -> Seq<Fetch> {
    if fetches.len() >= batch || !storable(id@) || fetching(fetches, id@) {
        fetches
    } else {
        fetches.push(Fetch { id, reason })
    }
}

/// Replacements of the suspects among the first `n` entries.
pub open spec fn suspect_fetches(input: PassInput, n: int) -> Seq<Fetch>
    decreases n,
{
    if n <= 0 {
        Seq::empty()
    } else {
        let f = suspect_fetches(input, n - 1);
        let e = input.entries@[n - 1];
        if e.suspect {
            enlist(f, input.download_batch as int, e.id, DownloadReason::Suspect)
        } else {
            f
        }
    }
}

/// After the suspects: the first `n` ids of the window that have nothing cached.
pub open spec fn window_fetches(input: PassInput, n: int) -> Seq<Fetch>
    decreases n,
{
    if n <= 0 {
        suspect_fetches(input, input.entries@.len() as int)
    } else {
        let f = window_fetches(input, n - 1);
        let id = input.window@[n - 1];
        if cached(input.entries@, id@) {
            f
        } else {
            enlist(f, input.download_batch as int, id, DownloadReason::Window)
        }
    }
}

/// How far the bulk work of a pass has come.
pub struct Bulk {
    pub fetches: Seq<Fetch>,
    /// What may still be spent.
    pub headroom: int,
    /// What will be on disk once the reclaimed bytes are gone.
    pub on_disk: int,
    /// Ids reclaimed to make room for pins.
    pub reclaimed: Seq<SongId>,
    /// Bytes set aside so far for the bulk downloads.
    pub committed: int,
}

/// Where the bulk work starts: after the audible downloads.
pub open spec fn bulk_start(input: PassInput) -> Bulk {
    Bulk {
        fetches: if input.may_write() {
            window_fetches(input, input.window@.len() as int)
        } else {
            Seq::empty()
        },
        headroom: most(0, input.max_bytes - input.total_bytes()),
        on_disk: input.total_bytes(),
        reclaimed: Seq::empty(),
        committed: 0,
    }
}

/// By how much a replacement grows the store.
pub open spec fn growth(input: PassInput, e: IndexEntry) -> int {
    match pin_song(input, e.id@) {
        Some(s) => match s.size {
            Some(n) => most(0, n - e.size),
            None => 0,
        },
        None => 0,
    }
}

/// Replacements of the stale ones among the first `n` entries, as far as there is headroom.
pub open spec fn after_stale(input: PassInput, n: int) -> Bulk
    decreases n,
{
    if n <= 0 {
        bulk_start(input)
    } else {
        let b = after_stale(input, n - 1);
        let e = input.entries@[n - 1];
        if !wants_replacement(input, e) || growth(input, e) > b.headroom {
            b
        } else {
            let f = enlist(b.fetches, input.download_batch as int, e.id, DownloadReason::Stale);
            Bulk {
                fetches: f,
                headroom: if f.len() > b.fetches.len() {
                    b.headroom - growth(input, e)
                } else {
                    b.headroom
                },
                on_disk: b.on_disk,
                reclaimed: b.reclaimed,
                committed: if f.len() > b.fetches.len() {
                    b.committed + growth(input, e)
                } else {
                    b.committed
                },
            }
        }
    }
}

/// Ids a group does not fetch: held by another group, or on disk.
pub open spec fn not_due(claims: Seq<Claim>, entries: Seq<IndexEntry>, slot: int) -> Set<Seq<char>> {
    Set::new(
        |id: Seq<char>|
            !(match claim_slot(claims, id) {
                Some(s) => s == slot,
                None => false,
            }) || cached(entries, id),
    )
}

/// What the group at a slot still has to fetch.
pub open spec fn due(input: PassInput, slot: int) -> Seq<usize> {
    tracks(
        input.line().groups[slot].songs@,
        not_due(input.line().walk.claims, input.entries@, slot),
    )
}

/// Admits the tracks at the first `n` of these positions.
pub open spec fn enlist_all(
    fetches: Seq<Fetch>,
    batch: int,
    songs: Seq<Song>,
    at: Seq<usize>,
    n: int,
) -> Seq<Fetch>
    decreases n,
{
    if n <= 0 {
        fetches
    } else {
        enlist(
            enlist_all(fetches, batch, songs, at, n - 1),
            batch,
            songs[at[n - 1] as int].id,
            DownloadReason::Backfill,
        )
    }
}

/// Ids that must not be reclaimed: being fetched, or reclaimed already.
pub open spec fn busy_ids(fetches: Seq<Fetch>, gone: Seq<SongId>) -> Set<Seq<char>> {
    Set::new(
        |id: Seq<char>|
            fetching(fetches, id) || exists|k: int|
                0 <= k < gone.len() && (#[trigger] gone[k])@ == id,
    )
}

/// What a group takes back from the cache to make room for itself.
pub open spec fn reclaim(input: PassInput, b: Bulk, want: int) -> Seq<usize> {
    take_from(
        victims(input),
        input.entries@,
        busy_ids(b.fetches, b.reclaimed),
        false,
        want,
        Seq::empty(),
        0,
    )
}

/// What may be spent once so many bytes are reclaimed: no more than the budget then leaves.
pub open spec fn room_after(input: PassInput, b: Bulk, bytes: int) -> int {
    least(capped(b.headroom + bytes), most(0, input.max_bytes - most(0, b.on_disk - bytes)))
}

/// The bulk work after one more group: its whole outstanding cost fits into the budget, if need
/// be after a reclaim, or nothing of it is fetched and nothing reclaimed.
pub open spec fn backfill_step(input: PassInput, b: Bulk, slot: int) -> Bulk {
    let line = input.line();
    let songs = line.groups[slot].songs@;
    let at = due(input, slot);
    let outstanding = capped(weight(songs, line.sizes, at));
    let batch = input.download_batch as int;
    if b.fetches.len() >= batch || !line.walk.resident[slot] || at.len() == 0 {
        b
    } else if outstanding <= b.headroom {
        let f = enlist_all(b.fetches, batch, songs, at, at.len() as int);
        Bulk {
            fetches: f,
            headroom: if f.len() > b.fetches.len() {
                b.headroom - outstanding
            } else {
                b.headroom
            },
            on_disk: b.on_disk,
            reclaimed: b.reclaimed,
            committed: if f.len() > b.fetches.len() {
                b.committed + outstanding
            } else {
                b.committed
            },
        }
    } else {
        let want = outstanding - b.headroom;
        let got = reclaim(input, b, want);
        let bytes = capped(freed(victims(input), input.entries@, got));
        let headroom = room_after(input, b, bytes);
        if headroom < outstanding {
            b
        } else {
            let on_disk = most(0, b.on_disk - bytes);
            let f = enlist_all(b.fetches, batch, songs, at, at.len() as int);
            Bulk {
                fetches: f,
                headroom: if f.len() > b.fetches.len() {
                    headroom - outstanding
                } else {
                    headroom
                },
                on_disk,
                reclaimed: b.reclaimed + ids_of(victims(input), input.entries@, got),
                committed: if f.len() > b.fetches.len() {
                    b.committed + outstanding
                } else {
                    b.committed
                },
            }
        }
    }
}

/// The bulk work after the first `k` groups of the frontier.
pub open spec fn after_backfill(input: PassInput, k: int) -> Bulk
    decreases k,
{
    if k <= 0 {
        after_stale(input, input.entries@.len() as int)
    } else {
        backfill_step(input, after_backfill(input, k - 1), k - 1)
    }
}

/// Everything a pass downloads and reclaims.
pub open spec fn bulk_of(input: PassInput) -> Bulk {
    if input.may_bulk() {
        if input.judging() {
            after_backfill(input, input.line().groups.len() as int)
        } else {
            after_stale(input, input.entries@.len() as int)
        }
    } else {
        bulk_start(input)
    }
}

/// The recency bumps to write out among the first `n` entries.
pub open spec fn flushes(input: PassInput, n: int) -> Seq<StoreAction>
    decreases n,
{
    if n <= 0 {
        Seq::empty()
    } else {
        let e = input.entries@[n - 1];
        if e.recency_dirty {
            flushes(input, n - 1).push(
                StoreAction::FlushRecency { id: e.id, last_played_unix: e.last_played_unix },
            )
        } else {
            flushes(input, n - 1)
        }
    }
}

/// What an over-full store evicts last of all.
pub open spec fn evictions(input: PassInput) -> Seq<SongId> {
    let b = bulk_of(input);
    let floor = eviction_floor(
        input.max_bytes as int,
        input.configured_max as int,
        input.avail as int,
    );
    if input.full() && b.on_disk > floor {
        ids_of(
            victims(input),
            input.entries@,
            take_from(
                victims(input),
                input.entries@,
                busy_ids(b.fetches, b.reclaimed),
                true,
                b.on_disk - floor,
                Seq::empty(),
                0,
            ),
        )
    } else {
        Seq::empty()
    }
}

/// Downloads as actions.
pub open spec fn as_downloads(fetches: Seq<Fetch>) -> Seq<StoreAction> {
    Seq::new(
        fetches.len(),
        |k: int| StoreAction::Download { id: fetches[k].id, reason: fetches[k].reason },
    )
}

/// Evictions as actions.
pub open spec fn as_evictions(ids: Seq<SongId>) -> Seq<StoreAction> {
    Seq::new(ids.len(), |k: int| StoreAction::Evict(ids[k]))
}

/// The plan of a pass: housekeeping, marks, what is reclaimed for pins, downloads, recency,
/// and evictions last.
pub open spec fn plan_of(input: PassInput) -> Seq<StoreAction> {
    let b = bulk_of(input);
    housekeeping(input) + marks(input) + as_evictions(b.reclaimed) + as_downloads(b.fetches) + (
    if input.full() {
        flushes(input, input.entries@.len() as int)
    } else {
        Seq::empty()
    }) + as_evictions(evictions(input))
}

// The self-description.

/// Bytes of the ids in these claims.
pub open spec fn claim_bytes(line: Line, claims: Seq<Claim>) -> int
    decreases claims.len(),
{
    if claims.len() == 0 {
        0
    } else {
        claim_bytes(line, claims.drop_last()) + line.size(claims.last().id@)
    }
}

/// The claims whose track is on disk, or those whose track is not.
pub open spec fn claims_cached(
    claims: Seq<Claim>,
    entries: Seq<IndexEntry>,
    on_disk: bool,
) -> Seq<Claim> {
    claims.filter(|c: Claim| cached(entries, c.id@) == on_disk)
}

/// The claims of the groups of one tier.
pub open spec fn claims_of_tier(line: Line, claims: Seq<Claim>, tier: PinTier) -> Seq<Claim> {
    claims.filter(|c: Claim| line.groups[c.slot as int].tier == tier)
}

/// How many tracks one tier holds, and their bytes.
pub open spec fn tier_holds(
    line: Line,
    claims: Seq<Claim>,
    tier: PinTier,
    tracks: usize,
    bytes: u64,
) -> bool {
    let own = claims_of_tier(line, claims, tier);
    tracks == own.len() && bytes == capped(claim_bytes(line, own))
}

/// Why bulk work is not moving.
pub open spec fn waiting_on(input: PassInput) -> StoreWaiting {
    if !input.may_write() {
        StoreWaiting::ReserveBreached
    } else if input.paused {
        StoreWaiting::Paused
    } else if input.defer_bulk {
        StoreWaiting::PlaybackRemote
    } else {
        StoreWaiting::NotWaiting
    }
}

/// A status that describes a pass.
pub open spec fn describes(s: StoreStatus, input: PassInput) -> bool {
    let line = input.line();
    let claims = line.walk.claims;
    let here = claims_cached(claims, input.entries@, true);
    let due = claims_cached(claims, input.entries@, false);
    &&& s.known
    &&& s.bytes == input.total_bytes()
    &&& s.entries == input.entries@.len()
    &&& s.configured_max == input.configured_max
    &&& s.effective_max == input.max_bytes
    &&& s.budget_source == input.budget_source
    &&& s.reserve == input.reserve
    &&& s.avail == input.avail
    &&& s.fs_total == input.fs_total
    &&& s.resident_tracks == claims.len()
    &&& s.resident_bytes == line.walk.spent
    &&& s.cached_tracks == here.len()
    &&& s.pending_tracks == due.len()
    &&& s.pending_bytes == capped(claim_bytes(line, due))
    &&& tier_holds(line, claims, PinTier::Song, s.tier_tracks@[0], s.tier_bytes@[0])
    &&& tier_holds(line, claims, PinTier::Album, s.tier_tracks@[1], s.tier_bytes@[1])
    &&& tier_holds(line, claims, PinTier::Artist, s.tier_tracks@[2], s.tier_bytes@[2])
    &&& s.frontier@.len() == line.groups.len()
    &&& forall|k: int|
        0 <= k < s.frontier@.len() ==> line.reports(
            #[trigger] s.frontier@[k],
            input.entries@,
            input.now_unix,
            k,
        )
    &&& s.given_up == 0
    &&& s.waiting == waiting_on(input)
}

} // verus!
