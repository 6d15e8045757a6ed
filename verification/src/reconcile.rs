//! The reconciler's decisions: when to run which pass, what a pass gets to look at, and what to
//! do about each download it planned.
use crate::backoff::{attempt_of, failed, Attempt, Backoff, DOWNLOAD_GIVE_UP_AFTER};
use crate::budget::{budget_of, budget_reserve, derive_budget, reserve_of, BudgetSource};
use crate::entries::{distinct_entries, IndexEntry};
use crate::index::{agree, ascending};
use crate::model::{Song, SongId};
use crate::pins::PinSet;
use crate::plan::{song_with, DownloadReason, PassInput, PassMode, StoreAction};
use crate::scan::DirScan;
use crate::status::{StoreStatus, StoreWaiting};
use crate::store::AudioStore;
use crate::transfer::sum64;
use vstd::prelude::*;

verus! {

/// How many times in a row eviction alone may start another pass.
pub const MAX_EVICTION_CHAIN: usize = 8;

/// What one pass did.
#[derive(Clone, Copy, Debug, PartialEq, Eq, Structural)]
pub struct PassReport {
    /// Downloads that were up for this pass.
    pub scheduled: usize,
    /// Downloads skipped because the id is given up.
    pub given_up: usize,
    /// Downloads that committed.
    pub committed: usize,
    /// Entries whose bytes really went.
    pub evicted: usize,
    /// What the pass budgeted against.
    pub budget: u64,
}

impl Default for PassReport {
    fn default() -> (r: Self)
        ensures
            r == (PassReport { scheduled: 0, given_up: 0, committed: 0, evicted: 0, budget: 0 }),
    {
        PassReport { scheduled: 0, given_up: 0, committed: 0, evicted: 0, budget: 0 }
    }
}

/// One more, as far as a count goes.
pub open spec fn counted(n: usize) -> usize {
    if n < usize::MAX {
        (n + 1) as usize
    } else {
        n
    }
}

impl PassReport {
    /// The pass filled its batch and landed something.
    pub open spec fn drained(self, batch: usize) -> bool {
        self.committed > 0 && self.scheduled >= batch
    }

    /// Another pass should follow at once.
    pub open spec fn goes_on(self, batch: usize, chain: usize) -> bool {
        self.drained(batch) || (self.evicted > 0 && chain < MAX_EVICTION_CHAIN)
    }

    /// Whether to run another pass at once: only on progress, never on outstanding work.
    /// `chain` is how many passes in a row went on for an eviction alone.
    pub fn re_enter(&self, batch: usize, chain: usize) -> (r: bool)
        ensures
            r == self.goes_on(batch, chain),
    {
        self.drained_a_full_batch(batch) || (self.evicted > 0 && chain < MAX_EVICTION_CHAIN)
    }

    /// Whether the pass filled its batch and landed something.
    pub fn drained_a_full_batch(&self, batch: usize) -> (r: bool)
        ensures
            r == self.drained(batch),
    {
        self.committed > 0 && self.scheduled >= batch
    }

    /// Counts an eviction, where bytes really went.
    pub fn evicted(&mut self, reclaimed: bool)
        ensures
            *final(self) == old(self).reclaimed(reclaimed),
            *final(self) == (PassReport {
                evicted: if reclaimed {
                    counted(old(self).evicted)
                } else {
                    old(self).evicted
                },
                ..*old(self)
            }),
    {
        if reclaimed {
            self.evicted = self.evicted.saturating_add(1);
        }
    }
}

/// What ended a sleep.
#[derive(Clone, Copy, Debug, PartialEq, Eq, Structural)]
pub enum Wake {
    /// The interval passed.
    Tick,
    /// Someone kicked; `full` says whether a full pass was asked for.
    Kick { full: bool },
}

/// Where the reconciler's loop stands. Moments are nanoseconds of a monotonic clock.
#[derive(Clone, Copy, Debug, PartialEq, Eq, Structural)]
pub struct Rounds {
    /// The pass to run without sleeping first.
    pub next_mode: Option<PassMode>,
    /// When the next full pass is due.
    pub next_full: u64,
    pub interval: u64,
    /// Passes in a row that went on for an eviction alone.
    pub eviction_chain: usize,
}

/// The interval of so many seconds, at least one, in nanoseconds as far as 64 bits go.
pub open spec fn interval_of(secs: u64) -> u64 {
    let n: int = if secs < 1 {
        1
    } else {
        secs as int
    };
    if n * 1_000_000_000 > u64::MAX {
        u64::MAX
    } else {
        (n * 1_000_000_000) as u64
    }
}

impl Rounds {
    /// A loop that starts with a full pass: nothing is known of the directory or the pins yet.
    pub fn start(sync_interval_secs: u64, now: u64) -> (r: Rounds)
        ensures
            r == (Rounds {
                next_mode: Some(PassMode::Full),
                next_full: now,
                interval: interval_of(sync_interval_secs),
                eviction_chain: 0,
            }),
    {
        let secs: u64 = if sync_interval_secs < 1 {
            1
        } else {
            sync_interval_secs
        };
        let interval: u64 = match secs.checked_mul(1_000_000_000) {
            Some(n) => n,
            None => u64::MAX,
        };
        Rounds { next_mode: Some(PassMode::Full), next_full: now, interval, eviction_chain: 0 }
    }

    /// The pass to run without sleeping, if one is due; it is due once.
    pub fn take_next(&mut self) -> (r: Option<PassMode>)
        ensures
            r == old(self).next_mode,
            *final(self) == (Rounds { next_mode: None, ..*old(self) }),
    {
        let next: Option<PassMode> = self.next_mode;
        self.next_mode = None;
        next
    }

    /// The pass that a wake calls for, and whether what is remembered of the pins must go
    /// first: only a full kick says that the pins themselves may have changed.
    pub fn woken(wake: Wake) -> (r: (PassMode, bool))
        ensures
            r == called_for(wake),
            r.0 == (if wake == (Wake::Kick { full: false }) {
                PassMode::Light
            } else {
                PassMode::Full
            }),
            r.1 == (wake == (Wake::Kick { full: true })),
    {
        match wake {
            Wake::Tick => (PassMode::Full, false),
            Wake::Kick { full } => {
                if full {
                    (PassMode::Full, true)
                } else {
                    (PassMode::Light, false)
                }
            },
        }
    }

    /// Sets the clock for the next full pass, as a full one begins. A light pass never delays
    /// it.
    pub fn begin(&mut self, mode: PassMode, now: u64)
        ensures
            *final(self) == old(self).begun(mode, now),
            *final(self) == (Rounds {
                next_full: if mode == PassMode::Full {
                    sum64(now, old(self).interval)
                } else {
                    old(self).next_full
                },
                ..*old(self)
            }),
    {
        match mode {
            PassMode::Full => {
                self.next_full = now.saturating_add(self.interval);
            },
            PassMode::Light => {},
        }
    }

    /// Takes a pass's report: goes on in the same mode while there is progress. Says whether
    /// the loop stopped only because evictions kept going on without a download to show.
    pub fn finish(&mut self, mode: PassMode, report: &PassReport, batch: usize) -> (r: bool)
        ensures
            *final(self) == old(self).told(mode, *report, batch),
            r == (!report.goes_on(batch, old(self).eviction_chain) && report.evicted > 0),
            *final(self) == (Rounds {
                next_mode: if report.goes_on(batch, old(self).eviction_chain) {
                    Some(mode)
                } else {
                    old(self).next_mode
                },
                eviction_chain: if report.goes_on(batch, old(self).eviction_chain)
                    && !report.drained(batch) {
                    (old(self).eviction_chain + 1) as usize
                } else {
                    0
                },
                ..*old(self)
            }),
    {
        if report.re_enter(batch, self.eviction_chain) {
            if report.drained_a_full_batch(batch) {
                self.eviction_chain = 0;
            } else {
                self.eviction_chain = self.eviction_chain + 1;
            }
            self.next_mode = Some(mode);
            false
        } else {
            let stalled: bool = report.evicted > 0 && self.eviction_chain >= MAX_EVICTION_CHAIN;
            self.eviction_chain = 0;
            stalled
        }
    }
}

/// What was measured of the filesystem, and the budget that follows.
#[derive(Clone, Copy, Debug, PartialEq, Eq, Structural)]
pub struct Measure {
    pub max_bytes: u64,
    pub source: BudgetSource,
    pub reserve: u64,
    pub avail: u64,
    pub fs_total: u64,
}

/// The budget of a pass, from what was measured. A filesystem that could not be measured, or
/// that claims more free than it has, leaves the configured cap: never an unlimited one.
pub open spec fn measured(space: Option<(u64, u64)>, own: u64, configured: u64) -> Measure {
    match space {
        Some((avail, total)) if avail <= total => Measure {
            max_bytes: budget_of(
                avail as int,
                total as int,
                own as int,
                configured as int,
            ) as u64,
            source: BudgetSource::FreeSpace,
            reserve: reserve_of(total as int) as u64,
            avail,
            fs_total: total,
        },
        _ => Measure {
            max_bytes: configured,
            source: BudgetSource::Config,
            reserve: 0,
            avail: 0,
            fs_total: 0,
        },
    }
}

/// Measures a pass's budget. `space` is free and total bytes, `own` the store's own bytes.
pub fn measure(space: Option<(u64, u64)>, own: u64, configured: u64) -> (r: Measure)
    ensures
        r == measured(space, own, configured),
{
    match space {
        Some((avail, total)) => {
            match derive_budget(avail, total, own, configured) {
                Some(max_bytes) => Measure {
                    max_bytes,
                    source: BudgetSource::FreeSpace,
                    reserve: budget_reserve(total),
                    avail,
                    fs_total: total,
                },
                None => Measure {
                    max_bytes: configured,
                    source: BudgetSource::Config,
                    reserve: 0,
                    avail: 0,
                    fs_total: 0,
                },
            }
        },
        None => Measure {
            max_bytes: configured,
            source: BudgetSource::Config,
            reserve: 0,
            avail: 0,
            fs_total: 0,
        },
    }
}

/// Everything one pass gets to look at: the store as it stands now, what was measured, and,
/// on a full pass, what the scan and the server said. A scan or a server that failed says
/// nothing.
pub fn observe(
    store: &AudioStore,
    mode: PassMode,
    batch: usize,
    now_unix: u64,
    budget: Measure,
    scan: Option<DirScan>,
    pins: Option<PinSet>,
) -> (r: PassInput)
    requires
        store.wf(),
    ensures
        r.mode == mode,
        r.pins == pins,
        r.window@ == store.window@,
        r.protected@ == store.protected@,
        ascending(r.entries@),
        distinct_entries(r.entries@),
        agree(r.entries@, store.index@),
        scan is Some ==> r.orphan_audio == scan->0.orphan_audio && r.orphan_sidecars
            == scan->0.orphan_sidecars && r.stale_tmps == scan->0.stale_tmps,
        scan is None ==> r.orphan_audio@.len() == 0 && r.orphan_sidecars@.len() == 0
            && r.stale_tmps@.len() == 0,
        r.max_bytes == budget.max_bytes,
        r.configured_max == store.cfg.max_bytes,
        r.budget_source == budget.source,
        r.reserve == budget.reserve,
        r.avail == budget.avail,
        r.fs_total == budget.fs_total,
        r.download_batch == batch,
        r.defer_bulk == store.playback_remote,
        r.paused == store.paused,
        r.now_unix == now_unix,
{
    let mut input: PassInput = PassInput::new(mode, store.cfg.max_bytes);
    input.download_batch = batch;
    input.defer_bulk = store.playback_remote();
    input.paused = store.paused();
    input.now_unix = now_unix;
    input.max_bytes = budget.max_bytes;
    input.budget_source = budget.source;
    input.reserve = budget.reserve;
    input.avail = budget.avail;
    input.fs_total = budget.fs_total;
    match scan {
        Some(s) => {
            input.orphan_audio = s.orphan_audio;
            input.orphan_sidecars = s.orphan_sidecars;
            input.stale_tmps = s.stale_tmps;
        },
        None => {},
    }
    input.pins = pins;
    input.entries = store.entries();
    input.window = store.window();
    input.protected = store.protected_ids();
    input
}

/// Two statuses that a one-line badge cannot tell apart.
pub open spec fn same_digest(a: StoreStatus, b: StoreStatus) -> bool {
    &&& a.resident_tracks == b.resident_tracks
    &&& a.cached_tracks == b.cached_tracks
    &&& a.pending_tracks == b.pending_tracks
    &&& a.shortfall().len() == b.shortfall().len()
    &&& a.effective_max == b.effective_max
    &&& a.waiting == b.waiting
}

/// Whether a new status is worth a line in the log.
pub fn worth_saying(before: &StoreStatus, after: &StoreStatus) -> (r: bool)
    ensures
        r == is_news(*before, *after),
        r == (!before.known || !same_digest(*before, *after)),
{
    let a: (usize, usize, usize, usize, u64, StoreWaiting) = before.digest();
    let b: (usize, usize, usize, usize, u64, StoreWaiting) = after.digest();
    !before.known || !(a.0 == b.0 && a.1 == b.1 && a.2 == b.2 && a.3 == b.3 && a.4 == b.4 && a.5
        == b.5)
}

/// What to do about one planned download.
#[derive(Debug)]
pub enum DownloadStep {
    /// Bulk work that gives way: the deck plays off the network, or the user paused it.
    Yield,
    /// Its backoff is not over.
    Wait,
    /// It is given up.
    GivenUp,
    /// Fetch it. `known` is this pass's own server copy of the song; without one the server
    /// must be asked, because an older copy's size could let a wrong file pass. `pinned` is
    /// the flag that its commit records.
    Fetch { known: Option<Song>, pinned: bool },
}

/// Bulk work, as opposed to what is about to be heard.
pub open spec fn is_bulk(reason: DownloadReason) -> bool {
    reason == DownloadReason::Backfill || reason == DownloadReason::Stale
}

/// This pass's own server copy of an id.
pub open spec fn known_song(input: PassInput, id: Seq<char>) -> Option<Song> {
    match input.pins {
        Some(pins) => song_with(pins.all_songs(), id),
        None => None,
    }
}

/// Whether a fresh commit of an id is recorded as pinned: by the pin set where there is one,
/// else as it was.
pub open spec fn pinned_flag(input: PassInput, id: Seq<char>) -> bool {
    if input.pins is Some {
        known_song(input, id) is Some
    } else {
        exists|k: int|
            0 <= k < input.entries@.len() && (#[trigger] input.entries@[k]).pinned
                && input.entries@[k].id@ == id
    }
}

/// The first song of the pin set with an id.
fn find_known(input: &PassInput, id: &SongId) -> (r: Option<Song>)
    ensures
        r == known_song(*input, id@),
{
    match &input.pins {
        Some(pins) => {
            let songs: Vec<&Song> = pins.songs();
            let ghost all = pins.all_songs();
            assert(all.skip(0) =~= all);
            for k in 0..songs.len()
                invariant
                    songs@.len() == all.len(),
                    forall|i: int| 0 <= i < songs@.len() ==> *(#[trigger] songs@[i]) == all[i],
                    song_with(all, id@) == song_with(all.skip(k as int), id@),
                    input.pins is Some && known_song(*input, id@) == song_with(all, id@),
            {
                assert(all.skip(k as int)[0] == all[k as int]);
                assert(*songs@[k as int] == all[k as int]);
                assert(all.skip(k as int).drop_first() =~= all.skip(k + 1));
                if songs[k].id.0 == id.0 {
                    return Some(songs[k].clone());
                }
            }
            None
        },
        None => None,
    }
}

/// Whether an entry of this id is pinned already.
fn was_pinned(entries: &Vec<IndexEntry>, id: &SongId) -> (r: bool)
    ensures
        r <==> exists|k: int|
            0 <= k < entries@.len() && (#[trigger] entries@[k]).pinned && entries@[k].id@ == id@,
{
    for k in 0..entries.len()
        invariant
            forall|j: int|
                0 <= j < k ==> !((#[trigger] entries@[j]).pinned && entries@[j].id@ == id@),
    {
        if entries[k].pinned && entries[k].id.0 == id.0 {
            assert(entries@[k as int].pinned);
            return true;
        }
    }
    false
}

/// Decides one planned download, and counts it. `remote` and `paused` are read anew for each,
/// so bulk work gives way to a playback that starts in the middle of a batch; what is about
/// to be heard never does.
pub fn next_download(
    report: &mut PassReport,
    backoff: &Backoff,
    input: &PassInput,
    id: &SongId,
    reason: DownloadReason,
    remote: bool,
    paused: bool,
    now: u64,
) -> (r: DownloadStep)
    requires
        backoff.wf(),
    ensures
        r is Yield <==> is_bulk(reason) && (remote || paused),
        !(r is Yield) ==> (r is Wait <==> attempt_of(backoff.of(id@), now) is Waiting),
        !(r is Yield) ==> (r is GivenUp <==> attempt_of(backoff.of(id@), now) is GivenUp),
        !(r is Yield) ==> (r is Fetch <==> attempt_of(backoff.of(id@), now) is Now),
        r matches DownloadStep::Fetch { known, pinned } ==> known == known_song(*input, id@)
            && pinned == pinned_flag(*input, id@),
        is_step(r, *backoff, *input, id@, reason, remote || paused, now),
        *final(report) == old(report).stepped(r),
        *final(report) == (PassReport {
            scheduled: if r is Yield {
                old(report).scheduled
            } else {
                counted(old(report).scheduled)
            },
            given_up: if r is GivenUp {
                counted(old(report).given_up)
            } else {
                old(report).given_up
            },
            ..*old(report)
        }),
{
    let bulk: bool = match reason {
        DownloadReason::Backfill => true,
        DownloadReason::Stale => true,
        _ => false,
    };
    if bulk && (remote || paused) {
        return DownloadStep::Yield;
    }
    report.scheduled = report.scheduled.saturating_add(1);
    match backoff.attempt(id, now) {
        Attempt::Waiting => DownloadStep::Wait,
        Attempt::GivenUp => {
            report.given_up = report.given_up.saturating_add(1);
            DownloadStep::GivenUp
        },
        Attempt::Now => {
            let known: Option<Song> = find_known(input, id);
            let pinned: bool = if input.pins.is_some() {
                known.is_some()
            } else {
                was_pinned(&input.entries, id)
            };
            DownloadStep::Fetch { known, pinned }
        },
    }
}

/// Takes the outcome of a fetch: a commit clears the id's failures and counts, a failure
/// pushes its next attempt out. Says whether this failure gave the id up, which is so once.
pub fn settle_download(
    report: &mut PassReport,
    backoff: &mut Backoff,
    id: &SongId,
    landed: bool,
    now: u64,
) -> (r: bool)
    requires
        old(backoff).wf(),
    ensures
        final(backoff).wf(),
        *final(report) == old(report).settled(landed),
        final(backoff).of(id@) == retried(old(backoff).of(id@), landed, now),
        final(backoff).of(id@) == (if landed {
            None
        } else {
            Some(failed(old(backoff).of(id@), now))
        }),
        forall|other: Seq<char>|
            other != id@ ==> #[trigger] final(backoff).of(other) == old(backoff).of(other),
        *final(report) == (PassReport {
            committed: if landed {
                counted(old(report).committed)
            } else {
                old(report).committed
            },
            ..*old(report)
        }),
        r == (!landed && failed(old(backoff).of(id@), now).0 == DOWNLOAD_GIVE_UP_AFTER),
{
    if landed {
        backoff.succeed(id);
        report.committed = report.committed.saturating_add(1);
        false
    } else {
        backoff.fail(id, now);
        backoff.just_gave_up(id)
    }
}

/// What one planned action comes to.
#[derive(Debug)]
pub enum Effect {
    /// Unlink this file.
    Unlink(String),
    /// Remove both files of an entry that cannot be valid.
    Remove(SongId),
    /// Rewrite the `stale` flag of a record.
    SetStale { id: SongId, stale: bool },
    /// Rewrite the `pinned` flag of a record.
    SetPinned { id: SongId, pinned: bool },
    /// Do about this download what the step says.
    Download { id: SongId, step: DownloadStep },
    /// Write out a recency.
    FlushRecency { id: SongId, last_played_unix: u64 },
    /// Reclaim an entry, and count it if its bytes went.
    Evict(SongId),
}

/// A pass under way: its actions in planned order, and how far it got.
#[derive(Debug)]
pub struct Execution {
    pub actions: Vec<StoreAction>,
    pub at: usize,
    pub report: PassReport,
}

/// What a step must be for a planned download, whatever the report.
pub open spec fn is_step(
    step: DownloadStep,
    backoff: Backoff,
    input: PassInput,
    id: Seq<char>,
    reason: DownloadReason,
    busy: bool,
    now: u64,
) -> bool {
    &&& step is Yield <==> is_bulk(reason) && busy
    &&& !(step is Yield) ==> (step is Wait <==> attempt_of(backoff.of(id), now) is Waiting)
    &&& !(step is Yield) ==> (step is GivenUp <==> attempt_of(backoff.of(id), now) is GivenUp)
    &&& step matches DownloadStep::Fetch { known, pinned } ==> known == known_song(input, id)
        && pinned == pinned_flag(input, id)
}

/// What an action comes to: the same file or the same id, and for a download its step.
pub open spec fn carries_out(
    effect: Effect,
    action: StoreAction,
    backoff: Backoff,
    input: PassInput,
    busy: bool,
    now: u64,
) -> bool {
    match action {
        StoreAction::SweepTmp(p) => effect == Effect::Unlink(p),
        StoreAction::DeleteFile(p) => effect == Effect::Unlink(p),
        StoreAction::DeleteEntry { id, reason } => effect == Effect::Remove(id),
        StoreAction::SetStale { id, stale } => effect == (Effect::SetStale { id, stale }),
        StoreAction::SetPinned { id, pinned } => effect == (Effect::SetPinned { id, pinned }),
        StoreAction::FlushRecency { id, last_played_unix } => effect == (Effect::FlushRecency {
            id,
            last_played_unix,
        }),
        StoreAction::Evict(id) => effect == Effect::Evict(id),
        StoreAction::Download { id, reason } => match effect {
            Effect::Download { id: same, step } => same == id && is_step(
                step,
                backoff,
                input,
                id@,
                reason,
                busy,
                now,
            ),
            _ => false,
        },
    }
}

impl Execution {
    /// A pass that has done nothing yet.
    pub fn start(actions: Vec<StoreAction>) -> (r: Execution)
        ensures
            r.actions == actions,
            r.at == 0,
            r.report == (PassReport {
                scheduled: 0,
                given_up: 0,
                committed: 0,
                evicted: 0,
                budget: 0,
            }),
    {
        Execution { actions, at: 0, report: PassReport::default() }
    }

    /// What the next action comes to. Actions come in the planned order, each once; nothing is
    /// left out and nothing is reordered. `remote` and `paused` are read anew for each.
    pub fn next(
        &mut self,
        backoff: &Backoff,
        input: &PassInput,
        remote: bool,
        paused: bool,
        now: u64,
    ) -> (r: Option<Effect>)
        requires
            backoff.wf(),
            old(self).at <= old(self).actions@.len(),
        ensures
            final(self).actions == old(self).actions,
            r is None <==> old(self).at == old(self).actions@.len(),
            r is None ==> *final(self) == *old(self),
            r is Some ==> final(self).at == old(self).at + 1,
            r is Some ==> carries_out(
                r->0,
                old(self).actions@[old(self).at as int],
                *backoff,
                *input,
                remote || paused,
                now,
            ),
            r is Some ==> final(self).report == (match r->0 {
                Effect::Download { id, step } => PassReport {
                    scheduled: if step is Yield {
                        old(self).report.scheduled
                    } else {
                        counted(old(self).report.scheduled)
                    },
                    given_up: if step is GivenUp {
                        counted(old(self).report.given_up)
                    } else {
                        old(self).report.given_up
                    },
                    ..old(self).report
                },
                _ => old(self).report,
            }),
    {
        if self.at >= self.actions.len() {
            return None;
        }
        assert(self.actions@.len() == self.actions.len());
        let at: usize = self.at;
        self.at = at + 1;
        let effect: Effect = match &self.actions[at] {
            StoreAction::SweepTmp(p) => Effect::Unlink(p.clone()),
            StoreAction::DeleteFile(p) => Effect::Unlink(p.clone()),
            StoreAction::DeleteEntry { id, .. } => Effect::Remove(id.clone()),
            StoreAction::SetStale { id, stale } => Effect::SetStale {
                id: id.clone(),
                stale: *stale,
            },
            StoreAction::SetPinned { id, pinned } => Effect::SetPinned {
                id: id.clone(),
                pinned: *pinned,
            },
            StoreAction::FlushRecency { id, last_played_unix } => Effect::FlushRecency {
                id: id.clone(),
                last_played_unix: *last_played_unix,
            },
            StoreAction::Evict(id) => Effect::Evict(id.clone()),
            StoreAction::Download { id, reason } => {
                let mut report: PassReport = self.report;
                let step: DownloadStep = next_download(
                    &mut report,
                    backoff,
                    input,
                    id,
                    *reason,
                    remote,
                    paused,
                    now,
                );
                let id: SongId = id.clone();
                self.report = report;
                Effect::Download { id, step }
            },
        };
        Some(effect)
    }
}

/// Concludes a pass: the report takes the budget it worked against, and a status, if the pass
/// formed one, takes the number of downloads given up and is published. Says whether the
/// status is worth a line in the log.
pub fn conclude(
    store: &mut AudioStore,
    report: &mut PassReport,
    budget: u64,
    status: Option<StoreStatus>,
) -> (r: bool)
    ensures
        *final(report) == (PassReport { budget, ..*old(report) }),
        status is None ==> *final(store) == *old(store) && !r,
        status is Some ==> {
            let said = StoreStatus { given_up: old(report).given_up, ..status->0 };
            &&& *final(store) == (AudioStore { status: said, ..*old(store) })
            &&& r == (!old(store).status.known || !same_digest(old(store).status, said))
        },
{
    report.budget = budget;
    match status {
        Some(status) => {
            let mut status: StoreStatus = status;
            status.given_up = report.given_up;
            let say: bool = worth_saying(&store.status, &status);
            store.publish_status(status);
            say
        },
        None => false,
    }
}

/// Going on takes progress: a pass that neither landed nor reclaimed anything never starts
/// another.
pub proof fn going_on_takes_progress(report: PassReport, batch: usize, chain: usize)
    ensures
        report.committed == 0 && report.evicted == 0 ==> !report.goes_on(batch, chain),
        report.committed > 0 && report.scheduled < batch && report.evicted == 0
            ==> !report.goes_on(batch, chain),
{
}

/// The chain of evictions after `n` passes, from a loop that stood at `chain`.
pub open spec fn chain_after(chain: usize, reports: Seq<PassReport>, batch: usize, n: int) -> usize
    decreases n,
{
    if n <= 0 {
        chain
    } else {
        let was = chain_after(chain, reports, batch, n - 1);
        if reports[n - 1].goes_on(batch, was) && !reports[n - 1].drained(batch) {
            (was + 1) as usize
        } else {
            0
        }
    }
}

/// Evictions alone never keep the loop from sleeping for long: in any run of more passes than
/// the cap, without a drained batch among them, one did not go on. That holds wherever the chain
/// stood when the run began.
pub proof fn eviction_chains_end(chain: usize, reports: Seq<PassReport>, batch: usize)
    requires
        reports.len() > MAX_EVICTION_CHAIN,
        forall|k: int| 0 <= k < reports.len() ==> !(#[trigger] reports[k]).drained(batch),
    ensures
        exists|k: int|
            0 <= k < reports.len() && !(#[trigger] reports[k]).goes_on(
                batch,
                chain_after(chain, reports, batch, k),
            ),
{
    if forall|k: int|
        0 <= k < reports.len() ==> (#[trigger] reports[k]).goes_on(
            batch,
            chain_after(chain, reports, batch, k),
        ) {
        assert(reports[0].goes_on(batch, chain_after(chain, reports, batch, 0)));
        assert(!reports[0].drained(batch));
        let last = MAX_EVICTION_CHAIN - chain;
        chains_count(chain, reports, batch, last);
        assert(!reports[last].drained(batch));
        assert(reports[last].goes_on(batch, chain_after(chain, reports, batch, last)));
    }
}

proof fn chains_count(chain: usize, reports: Seq<PassReport>, batch: usize, n: int)
    requires
        0 <= n <= MAX_EVICTION_CHAIN - chain,
        n <= reports.len(),
        forall|k: int| 0 <= k < reports.len() ==> !(#[trigger] reports[k]).drained(batch),
        forall|k: int|
            0 <= k < reports.len() ==> (#[trigger] reports[k]).goes_on(
                batch,
                chain_after(chain, reports, batch, k),
            ),
    ensures
        chain_after(chain, reports, batch, n) == chain + n,
    decreases n,
{
    if n > 0 {
        chains_count(chain, reports, batch, n - 1);
        assert(!reports[n - 1].drained(batch));
        assert(reports[n - 1].goes_on(batch, chain_after(chain, reports, batch, n - 1)));
    }
}

/// Another pass follows at once where this one filled its batch and landed something, or where
/// it reclaimed bytes and has not done so too often in a row; otherwise the loop sleeps.
pub proof fn passes_follow_on_progress(report: PassReport, batch: usize, chain: usize)
    ensures
        report.drained(batch) <==> report.committed > 0 && report.scheduled >= batch,
        report.committed > 0 && report.scheduled >= batch ==> report.goes_on(batch, chain),
        report.evicted > 0 && chain < MAX_EVICTION_CHAIN ==> report.goes_on(batch, chain),
        report.goes_on(batch, chain) ==> report.committed > 0 || report.evicted > 0,
        chain >= MAX_EVICTION_CHAIN && !(report.committed > 0 && report.scheduled >= batch)
            ==> !report.goes_on(batch, chain),
{
}

/// An interval is of at least a second, and of as many as are asked for.
pub proof fn intervals_are_as_asked(secs: u64)
    ensures
        interval_of(0) == interval_of(1),
        1 <= secs <= 18_446_744_073 ==> interval_of(secs) == secs * 1_000_000_000,
        secs > 18_446_744_073 ==> interval_of(secs) == u64::MAX,
{
}

/// A filesystem that can be measured gives the budget; one that cannot, or that claims more free
/// than it has, leaves the configured cap, and never more.
pub proof fn budgets_are_measured_or_configured(
    avail: u64,
    total: u64,
    own: u64,
    configured: u64,
)
    ensures
        measured(None, own, configured).max_bytes == configured,
        measured(None, own, configured).source == BudgetSource::Config,
        avail > total ==> measured(Some((avail, total)), own, configured) == measured(
            None,
            own,
            configured,
        ),
        avail <= total ==> {
            let m = measured(Some((avail, total)), own, configured);
            &&& m.source == BudgetSource::FreeSpace
            &&& m.max_bytes == budget_of(
                avail as int,
                total as int,
                own as int,
                configured as int,
            )
            &&& m.max_bytes <= configured
            &&& m.avail == avail && m.fs_total == total
            &&& m.reserve == reserve_of(total as int)
        },
{
}

/// Bulk work gives way while the deck plays off the network or a hand holds it, and nothing else
/// does. Whatever does not give way waits out its failures, is given up by their number, or is
/// fetched, as the first song of the pin set with its id, if there is one.
pub proof fn downloads_step_for_cause(
    step: DownloadStep,
    backoff: Backoff,
    input: PassInput,
    id: Seq<char>,
    reason: DownloadReason,
    busy: bool,
    now: u64,
)
    requires
        is_step(step, backoff, input, id, reason, busy, now),
    ensures
        reason == DownloadReason::Suspect || reason == DownloadReason::Window ==> !(step is Yield),
        !busy ==> !(step is Yield),
        busy && (reason == DownloadReason::Stale || reason == DownloadReason::Backfill)
            ==> step is Yield,
        !(step is Yield) && backoff.of(id) is None ==> step is Fetch,
        !(step is Yield) ==> (backoff.of(id) matches Some(r) ==> {
            &&& step is GivenUp <==> r.0 >= DOWNLOAD_GIVE_UP_AFTER
            &&& step is Wait <==> r.0 < DOWNLOAD_GIVE_UP_AFTER && now < r.1
            &&& step is Fetch <==> r.0 < DOWNLOAD_GIVE_UP_AFTER && now >= r.1
        }),
{
}

/// A commit is recorded as pinned where the pin set lists its song; without a pin set it stays
/// as its entry was.
pub proof fn commits_are_pinned_by_the_pin_set(input: PassInput, id: Seq<char>)
    ensures
        input.pins is Some ==> (pinned_flag(input, id) <==> exists|k: int|
            0 <= k < input.pins->0.all_songs().len() && (#[trigger] input.pins->0.all_songs()[k]).id@
                == id),
        input.pins is None ==> (pinned_flag(input, id) <==> exists|k: int|
            0 <= k < input.entries@.len() && (#[trigger] input.entries@[k]).id@ == id
                && input.entries@[k].pinned),
        input.pins is None ==> known_song(input, id) is None,
{
    if input.pins is Some {
        songs_are_found(input.pins->0.all_songs(), id);
    }
}

proof fn songs_are_found(songs: Seq<Song>, id: Seq<char>)
    ensures
        song_with(songs, id) is Some <==> exists|k: int|
            0 <= k < songs.len() && (#[trigger] songs[k]).id@ == id,
        song_with(songs, id) matches Some(s) ==> s.id@ == id,
    decreases songs.len(),
{
    if songs.len() > 0 {
        let rest = songs.drop_first();
        songs_are_found(rest, id);
        if song_with(rest, id) is Some {
            let k = choose|k: int| 0 <= k < rest.len() && (#[trigger] rest[k]).id@ == id;
            assert(songs[k + 1].id@ == id);
        }
        if exists|k: int| 0 <= k < songs.len() && (#[trigger] songs[k]).id@ == id {
            let k = choose|k: int| 0 <= k < songs.len() && (#[trigger] songs[k]).id@ == id;
            if k > 0 {
                assert(rest[k - 1].id@ == id);
            }
        }
    }
}

/// The pass that a wake calls for, and whether what is remembered of the pins goes first.
pub open spec fn called_for(wake: Wake) -> (PassMode, bool) {
    match wake {
        Wake::Tick => (PassMode::Full, false),
        Wake::Kick { full: true } => (PassMode::Full, true),
        Wake::Kick { full: false } => (PassMode::Light, false),
    }
}

impl Rounds {
    /// The rounds once a pass has begun.
    pub open spec fn begun(self, mode: PassMode, now: u64) -> Rounds {
        match mode {
            PassMode::Full => Rounds { next_full: sum64(now, self.interval), ..self },
            PassMode::Light => self,
        }
    }

    /// The rounds once a pass has reported.
    pub open spec fn told(self, mode: PassMode, report: PassReport, batch: usize) -> Rounds {
        if report.drained(batch) {
            Rounds { next_mode: Some(mode), eviction_chain: 0, ..self }
        } else if report.goes_on(batch, self.eviction_chain) {
            Rounds {
                next_mode: Some(mode),
                eviction_chain: (self.eviction_chain + 1) as usize,
                ..self
            }
        } else {
            Rounds { eviction_chain: 0, ..self }
        }
    }
}

/// A status that says something new.
pub open spec fn is_news(before: StoreStatus, after: StoreStatus) -> bool {
    !(before.known && same_digest(before, after))
}

/// Only a light kick calls for a light pass, and only a full kick says that the pins may have
/// changed.
pub proof fn wakes_call_for_passes(wake: Wake)
    ensures
        called_for(wake).0 == PassMode::Light <==> wake == (Wake::Kick { full: false }),
        called_for(wake).1 <==> wake == (Wake::Kick { full: true }),
{
}

/// A full pass puts the next one a whole interval off, as far as 64 bits go; a light one leaves
/// it where it is. Neither touches anything else.
pub proof fn full_passes_set_the_clock(rounds: Rounds, mode: PassMode, now: u64)
    ensures
        ({
            let after = rounds.begun(mode, now);
            &&& mode == PassMode::Full && now + rounds.interval <= u64::MAX ==> after.next_full
                == now + rounds.interval
            &&& mode == PassMode::Full && now + rounds.interval > u64::MAX ==> after.next_full
                == u64::MAX
            &&& mode == PassMode::Light ==> after.next_full == rounds.next_full
            &&& after.interval == rounds.interval
            &&& after.next_mode == rounds.next_mode
            &&& after.eviction_chain == rounds.eviction_chain
        }),
{
}

/// What a report does to the rounds: a pass that filled its batch and landed something, or that
/// reclaimed bytes and may do so again, is followed by another of its mode. Only reclaims in a row
/// are counted, and anything else starts the count anew.
pub proof fn reports_turn_the_rounds(
    rounds: Rounds,
    mode: PassMode,
    report: PassReport,
    batch: usize,
)
    requires
        rounds.eviction_chain <= MAX_EVICTION_CHAIN,
    ensures
        ({
            let after = rounds.told(mode, report, batch);
            let drained = report.committed > 0 && report.scheduled >= batch;
            let reclaimed = report.evicted > 0 && rounds.eviction_chain < MAX_EVICTION_CHAIN;
            &&& drained || reclaimed ==> after.next_mode == Some(mode)
            &&& !drained && !reclaimed ==> after.next_mode == rounds.next_mode
            &&& !drained && reclaimed ==> after.eviction_chain == rounds.eviction_chain + 1
            &&& drained || !reclaimed ==> after.eviction_chain == 0
            &&& after.next_full == rounds.next_full
            &&& after.interval == rounds.interval
        }),
{
}

/// A status is news where it is the first, or where any of what a badge shows has changed: how
/// much is to be held, how much is, how much is to come, how many groups fall short, the budget,
/// and why bulk work waits. Nothing else makes it news.
pub proof fn news_is_what_a_badge_shows(before: StoreStatus, after: StoreStatus)
    ensures
        !before.known ==> is_news(before, after),
        before.known ==> (is_news(before, after) <==> before.resident_tracks
            != after.resident_tracks || before.cached_tracks != after.cached_tracks
            || before.pending_tracks != after.pending_tracks || before.shortfall().len()
            != after.shortfall().len() || before.effective_max != after.effective_max
            || before.waiting != after.waiting),
{
}

/// A planned action is carried out as itself: what is to be unlinked, removed, marked, written out
/// or evicted is that, of that id and with that value, and a download is taken the step that its
/// failures and the deck leave it.
pub proof fn actions_are_carried_out_as_planned(
    effect: Effect,
    action: StoreAction,
    backoff: Backoff,
    input: PassInput,
    busy: bool,
    now: u64,
)
    requires
        carries_out(effect, action, backoff, input, busy, now),
    ensures
        action matches StoreAction::SweepTmp(p) ==> effect == Effect::Unlink(p),
        action matches StoreAction::DeleteFile(p) ==> effect == Effect::Unlink(p),
        action matches StoreAction::DeleteEntry { id, reason } ==> effect == Effect::Remove(id),
        action matches StoreAction::SetStale { id, stale } ==> effect == (Effect::SetStale {
            id,
            stale,
        }),
        action matches StoreAction::SetPinned { id, pinned } ==> effect == (Effect::SetPinned {
            id,
            pinned,
        }),
        action matches StoreAction::FlushRecency { id, last_played_unix } ==> effect == (
        Effect::FlushRecency { id, last_played_unix }),
        action matches StoreAction::Evict(id) ==> effect == Effect::Evict(id),
        action matches StoreAction::Download { id, reason } ==> effect matches Effect::Download {
            id: same,
            step,
        } && same == id && is_step(step, backoff, input, id@, reason, busy, now),
{
}

/// Something is counted one up, until it can be counted no further.
pub proof fn counts_go_up_by_one(n: usize)
    ensures
        n < usize::MAX ==> counted(n) == n + 1,
        counted(usize::MAX) == usize::MAX,
{
}

impl PassReport {
    /// The report once a download was taken a step.
    pub open spec fn stepped(self, step: DownloadStep) -> PassReport {
        match step {
            DownloadStep::Yield => self,
            DownloadStep::GivenUp => PassReport {
                scheduled: counted(self.scheduled),
                given_up: counted(self.given_up),
                ..self
            },
            _ => PassReport { scheduled: counted(self.scheduled), ..self },
        }
    }

    /// The report once a fetch came to its end.
    pub open spec fn settled(self, landed: bool) -> PassReport {
        if landed {
            PassReport { committed: counted(self.committed), ..self }
        } else {
            self
        }
    }

    /// The report once an entry was to go.
    pub open spec fn reclaimed(self, gone: bool) -> PassReport {
        if gone {
            PassReport { evicted: counted(self.evicted), ..self }
        } else {
            self
        }
    }
}

/// What is known of an id's failures once a fetch of it came to its end.
pub open spec fn retried(retry: Option<(u32, u64)>, landed: bool, now: u64) -> Option<(u32, u64)> {
    if landed {
        None
    } else {
        Some(failed(retry, now))
    }
}

/// A report counts what happens and nothing else: a download that does not give way is scheduled,
/// one that is given up counts as such too, a fetch that lands is committed, and an entry whose
/// bytes went is evicted.
pub proof fn reports_count_what_happens(report: PassReport, step: DownloadStep, done: bool)
    requires
        report.scheduled < usize::MAX,
        report.given_up < usize::MAX,
        report.committed < usize::MAX,
        report.evicted < usize::MAX,
    ensures
        ({
            let a = report.stepped(step);
            &&& a.scheduled == report.scheduled + (if step is Yield {
                0int
            } else {
                1
            })
            &&& a.given_up == report.given_up + (if step is GivenUp {
                1int
            } else {
                0
            })
            &&& a.committed == report.committed && a.evicted == report.evicted && a.budget
                == report.budget
        }),
        report.settled(false) == report,
        report.settled(true).committed == report.committed + 1,
        report.settled(true).scheduled == report.scheduled,
        report.settled(true).given_up == report.given_up,
        report.settled(true).evicted == report.evicted,
        report.reclaimed(false) == report,
        report.reclaimed(true).evicted == report.evicted + 1,
        report.reclaimed(true).committed == report.committed,
        report.reclaimed(true).scheduled == report.scheduled,
        report.reclaimed(true).given_up == report.given_up,
{
}

/// A fetch that lands wipes out every failure before it; one that does not is one failure more.
pub proof fn landings_wipe_out_failures(retry: Option<(u32, u64)>, now: u64)
    ensures
        retried(retry, true, now) is None,
        retried(retry, false, now) is Some,
        retried(retry, false, now) matches Some(r) ==> {
            &&& retry is None ==> r.0 == 1
            &&& retry matches Some(was) ==> was.0 < u32::MAX ==> r.0 == was.0 + 1
        },
{
}

} // verus!
