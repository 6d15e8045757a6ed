//! What the store says of itself: the ranked groups, the shortfall by name, and why it waits.
use crate::budget::BudgetSource;
use crate::pins::{PinKind, PinTier};
use crate::text::copy_opt;
use vstd::prelude::*;

verus! {

/// Where one pin group ended up relative to the frontier line.
#[derive(Clone, Copy, Debug, PartialEq, Eq, Structural)]
pub enum GroupStanding {
    /// Above the line: downloaded and kept.
    Resident,
    /// Below the line, with tracks nothing else holds.
    Deferred,
    /// Every one of its tracks is held by a resident group that reached them first.
    Covered,
}

impl GroupStanding {
    /// Stable label for the status surface.
    pub fn label(self) -> (r: &'static str)
        ensures
            r@ == (match self {
                GroupStanding::Resident => "resident"@,
                GroupStanding::Deferred => "deferred"@,
                GroupStanding::Covered => "covered"@,
            }),
    {
        match self {
            GroupStanding::Resident => "resident",
            GroupStanding::Deferred => "deferred",
            GroupStanding::Covered => "covered",
        }
    }
}

/// One pin group as the frontier ranked it, with the evidence it was ranked on.
#[derive(Debug, PartialEq, Eq)]
pub struct RankedGroup {
    pub kind: PinKind,
    pub id: String,
    pub name: String,
    pub tier: PinTier,
    pub standing: GroupStanding,
    /// Position in the frontier order.
    pub rank: usize,
    /// The group's own distinct storable tracks and their byte cost.
    pub tracks: usize,
    pub bytes: u64,
    /// Its own tracks that no resident group holds.
    pub missing_tracks: usize,
    pub missing_bytes: u64,
    /// Tenths of its bytes that are neglected, 0 to 10.
    pub cold_decile: u8,
    /// Whether any of its tracks was on disk when it was ranked.
    pub held: bool,
    pub cold_tracks: usize,
    pub cold_bytes: u64,
    /// Tracks without any play record.
    pub never_played: usize,
    /// Plays across the group. Evidence only.
    pub plays: u32,
    /// Age in days of its freshest and of its stalest readable play.
    pub last_played_days: Option<u32>,
    pub oldest_played_days: Option<u32>,
    /// Bytes it missed by at its own turn; zero where it fitted.
    pub over_by: u64,
    /// The last group to take space before this one was refused.
    pub blocked_by: Option<String>,
    /// Refused by the reservation for hand-picked stars rather than by a full mirror.
    pub held_back_by_floor: bool,
}

impl Clone for RankedGroup {
    fn clone(&self) -> (r: Self)
        ensures
            r == *self,
    {
        RankedGroup {
            kind: self.kind,
            id: self.id.clone(),
            name: self.name.clone(),
            tier: self.tier,
            standing: self.standing,
            rank: self.rank,
            tracks: self.tracks,
            bytes: self.bytes,
            missing_tracks: self.missing_tracks,
            missing_bytes: self.missing_bytes,
            cold_decile: self.cold_decile,
            held: self.held,
            cold_tracks: self.cold_tracks,
            cold_bytes: self.cold_bytes,
            never_played: self.never_played,
            plays: self.plays,
            last_played_days: self.last_played_days,
            oldest_played_days: self.oldest_played_days,
            over_by: self.over_by,
            blocked_by: copy_opt(&self.blocked_by),
            held_back_by_floor: self.held_back_by_floor,
        }
    }
}

impl RankedGroup {
    /// The browse uri (`song/<id>`, `album/<id>`) this group names.
    pub fn uri(&self) -> (r: String)
        ensures
            r@ == self.kind.text() + seq!['/'] + self.id@,
    {
        let mut out: String = self.kind.label().to_owned();
        out.push('/');
        out.append(self.id.as_str());
        assert(out@ =~= self.kind.text() + seq!['/'] + self.id@);
        out
    }
}

/// Why bulk store work is not moving right now.
#[derive(Clone, Copy, Debug, PartialEq, Eq, Structural)]
pub enum StoreWaiting {
    /// It is moving.
    NotWaiting,
    /// The deck plays off the network, and a backfill would fight it.
    PlaybackRemote,
    /// Paused by hand, for this process only.
    Paused,
    /// The free-space reserve is breached: nothing is written, only deleted.
    ReserveBreached,
}

impl StoreWaiting {
    /// Stable slug for logs and machine-read fields.
    pub fn label(self) -> (r: &'static str)
        ensures
            r@ == (match self {
                StoreWaiting::NotWaiting => "none"@,
                StoreWaiting::PlaybackRemote => "playback-remote"@,
                StoreWaiting::Paused => "paused"@,
                StoreWaiting::ReserveBreached => "reserve-breached"@,
            }),
    {
        match self {
            StoreWaiting::NotWaiting => "none",
            StoreWaiting::PlaybackRemote => "playback-remote",
            StoreWaiting::Paused => "paused",
            StoreWaiting::ReserveBreached => "reserve-breached",
        }
    }

    /// The same state as a phrase for people. A store that is not waiting says nothing.
    pub fn phrase(self) -> (r: Option<&'static str>)
        ensures
            match self {
                StoreWaiting::NotWaiting => r is None,
                StoreWaiting::PlaybackRemote => r is Some && r->0@ == "paused while streaming"@,
                StoreWaiting::Paused => r is Some && r->0@ == "paused by you"@,
                StoreWaiting::ReserveBreached => r is Some && r->0@
                    == "stopped - the disk is almost full"@,
            },
    {
        match self {
            StoreWaiting::NotWaiting => None,
            StoreWaiting::PlaybackRemote => Some("paused while streaming"),
            StoreWaiting::Paused => Some("paused by you"),
            StoreWaiting::ReserveBreached => Some("stopped - the disk is almost full"),
        }
    }
}

impl Default for StoreWaiting {
    fn default() -> (r: Self)
        ensures
            r == StoreWaiting::NotWaiting,
    {
        StoreWaiting::NotWaiting
    }
}

/// What the store knows of itself, recomputed by every full pass that had a pin set.
#[derive(Debug, PartialEq)]
pub struct StoreStatus {
    /// Whether a full pass has ever published.
    pub known: bool,
    /// Bytes of stored audio, and how many entries that is.
    pub bytes: u64,
    pub entries: usize,
    /// The configured cap, and the budget in force.
    pub configured_max: u64,
    pub effective_max: u64,
    pub budget_source: BudgetSource,
    /// The free-space observation behind the budget.
    pub reserve: u64,
    pub avail: u64,
    pub fs_total: u64,
    /// Tracks the frontier decided to keep, their bytes, and how many are on disk.
    pub resident_tracks: usize,
    pub resident_bytes: u64,
    pub cached_tracks: usize,
    /// Resident tracks still to fetch, and their bytes.
    pub pending_tracks: usize,
    pub pending_bytes: u64,
    /// Resident tracks per tier: song, album, artist.
    pub tier_tracks: [usize; 3],
    pub tier_bytes: [u64; 3],
    /// Every pin group in frontier order, won or lost.
    pub frontier: Vec<RankedGroup>,
    /// Ids this process has given up downloading.
    pub given_up: usize,
    pub waiting: StoreWaiting,
}

impl StoreStatus {
    /// Two statuses with the same contents.
    pub open spec fn same_as(self, other: StoreStatus) -> bool {
        &&& self.known == other.known
        &&& self.bytes == other.bytes
        &&& self.entries == other.entries
        &&& self.configured_max == other.configured_max
        &&& self.effective_max == other.effective_max
        &&& self.budget_source == other.budget_source
        &&& self.reserve == other.reserve
        &&& self.avail == other.avail
        &&& self.fs_total == other.fs_total
        &&& self.resident_tracks == other.resident_tracks
        &&& self.resident_bytes == other.resident_bytes
        &&& self.cached_tracks == other.cached_tracks
        &&& self.pending_tracks == other.pending_tracks
        &&& self.pending_bytes == other.pending_bytes
        &&& self.tier_tracks == other.tier_tracks
        &&& self.tier_bytes == other.tier_bytes
        &&& self.frontier@ == other.frontier@
        &&& self.given_up == other.given_up
        &&& self.waiting == other.waiting
    }
}

impl Clone for StoreStatus {
    fn clone(&self) -> (r: Self)
        ensures
            r.same_as(*self),
    {
        let mut frontier: Vec<RankedGroup> = Vec::new();
        for i in 0..self.frontier.len()
            invariant
                frontier@ == self.frontier@.take(i as int),
        {
            frontier.push(self.frontier[i].clone());
        }
        assert(self.frontier@.take(self.frontier@.len() as int) =~= self.frontier@);
        StoreStatus {
            known: self.known,
            bytes: self.bytes,
            entries: self.entries,
            configured_max: self.configured_max,
            effective_max: self.effective_max,
            budget_source: self.budget_source,
            reserve: self.reserve,
            avail: self.avail,
            fs_total: self.fs_total,
            resident_tracks: self.resident_tracks,
            resident_bytes: self.resident_bytes,
            cached_tracks: self.cached_tracks,
            pending_tracks: self.pending_tracks,
            pending_bytes: self.pending_bytes,
            tier_tracks: self.tier_tracks,
            tier_bytes: self.tier_bytes,
            frontier,
            given_up: self.given_up,
            waiting: self.waiting,
        }
    }
}

/// Positions below `n` of the groups that are deferred.
pub open spec fn deferred_positions(frontier: Seq<RankedGroup>, n: int) -> Seq<int>
    decreases n,
{
    if n <= 0 {
        Seq::empty()
    } else if frontier[n - 1].standing == GroupStanding::Deferred {
        deferred_positions(frontier, n - 1).push(n - 1)
    } else {
        deferred_positions(frontier, n - 1)
    }
}

impl StoreStatus {
    /// Positions of the deferred groups, in frontier order.
    pub open spec fn shortfall(self) -> Seq<int> {
        deferred_positions(self.frontier@, self.frontier@.len() as int)
    }

    /// A mirror that holds everything it decided to hold.
    pub open spec fn is_complete(self) -> bool {
        self.pending_tracks == 0 && self.known
    }

    /// The mirror holds everything it decided to hold.
    pub fn complete(&self) -> (r: bool)
        ensures
            r == self.is_complete(),
            r == (self.known && self.pending_tracks == 0),
    {
        self.known && self.pending_tracks == 0
    }

    /// The groups below the line, in frontier order.
    pub fn deferred(&self) -> (r: Vec<&RankedGroup>)
        ensures
            r@.len() == self.shortfall().len(),
            forall|i: int|
                0 <= i < r@.len() ==> *(#[trigger] r@[i]) == self.frontier@[self.shortfall()[i]],
    {
        let mut out: Vec<&RankedGroup> = Vec::new();
        for i in 0..self.frontier.len()
            invariant
                out@.len() == deferred_positions(self.frontier@, i as int).len(),
                forall|j: int|
                    0 <= j < out@.len() ==> *(#[trigger] out@[j])
                        == self.frontier@[deferred_positions(self.frontier@, i as int)[j]],
        {
            let g: &RankedGroup = &self.frontier[i];
            if g.standing == GroupStanding::Deferred {
                out.push(g);
            }
        }
        out
    }

    /// How many groups the shortfall names.
    pub fn deferred_count(&self) -> (r: usize)
        ensures
            r == self.shortfall().len(),
    {
        self.deferred().len()
    }

    /// The fields a one-line badge is built from: two passes that agree on them have nothing
    /// new to say.
    pub fn digest(&self) -> (r: (usize, usize, usize, usize, u64, StoreWaiting))
        ensures
            r.0 == self.resident_tracks,
            r.1 == self.cached_tracks,
            r.2 == self.pending_tracks,
            r.3 == self.shortfall().len(),
            r.4 == self.effective_max,
            r.5 == self.waiting,
    {
        (
            self.resident_tracks,
            self.cached_tracks,
            self.pending_tracks,
            self.deferred_count(),
            self.effective_max,
            self.waiting,
        )
    }
}

impl StoreStatus {
    /// What the store says of itself before any pass has judged: nothing.
    pub open spec fn is_blank(self) -> bool {
        &&& !self.known
        &&& self.bytes == 0 && self.entries == 0
        &&& self.configured_max == 0 && self.effective_max == 0
        &&& self.budget_source == BudgetSource::Config
        &&& self.reserve == 0 && self.avail == 0 && self.fs_total == 0
        &&& self.resident_tracks == 0 && self.resident_bytes == 0 && self.cached_tracks == 0
        &&& self.pending_tracks == 0 && self.pending_bytes == 0
        &&& self.tier_tracks@ == seq![0usize, 0, 0]
        &&& self.tier_bytes@ == seq![0u64, 0, 0]
        &&& self.frontier@.len() == 0
        &&& self.given_up == 0
        &&& self.waiting == StoreWaiting::NotWaiting
    }
}

impl Default for StoreStatus {
    fn default() -> (r: Self)
        ensures
            r.is_blank(),
    {
        StoreStatus {
            known: false,
            bytes: 0,
            entries: 0,
            configured_max: 0,
            effective_max: 0,
            budget_source: BudgetSource::Config,
            reserve: 0,
            avail: 0,
            fs_total: 0,
            resident_tracks: 0,
            resident_bytes: 0,
            cached_tracks: 0,
            pending_tracks: 0,
            pending_bytes: 0,
            tier_tracks: [0, 0, 0],
            tier_bytes: [0, 0, 0],
            frontier: Vec::new(),
            given_up: 0,
            waiting: StoreWaiting::NotWaiting,
        }
    }
}

/// The shortfall lists exactly the deferred groups, in frontier order.
pub proof fn shortfall_is_the_deferred_groups(frontier: Seq<RankedGroup>, n: int)
    requires
        0 <= n <= frontier.len(),
    ensures
        forall|k: int|
            0 <= k < deferred_positions(frontier, n).len() ==> 0 <= #[trigger] deferred_positions(
                frontier,
                n,
            )[k] < n && frontier[deferred_positions(frontier, n)[k]].standing
                == GroupStanding::Deferred,
        forall|a: int, b: int|
            0 <= a < b < deferred_positions(frontier, n).len() ==> #[trigger] deferred_positions(
                frontier,
                n,
            )[a] < #[trigger] deferred_positions(frontier, n)[b],
        forall|i: int|
            0 <= i < n && (#[trigger] frontier[i]).standing == GroupStanding::Deferred
                ==> deferred_positions(frontier, n).contains(i),
    decreases n,
{
    if n > 0 {
        shortfall_is_the_deferred_groups(frontier, n - 1);
        let p = deferred_positions(frontier, n - 1);
        let q = deferred_positions(frontier, n);
        assert forall|i: int| 0 <= i < n && (#[trigger] frontier[i]).standing
            == GroupStanding::Deferred implies q.contains(i) by {
            if i == n - 1 {
                assert(q[p.len() as int] == i);
            } else {
                assert(p.contains(i));
                let k = choose|k: int| 0 <= k < p.len() && p[k] == i;
                assert(q[k] == i);
            }
        }
    }
}

} // verus!
