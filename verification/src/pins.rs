//! The pin set: what starring asks the store to keep.
use crate::model::{played_age, Song};
use crate::text::{decimal, push_decimal};
use vstd::prelude::*;

verus! {

/// Days since a play from which a track counts as neglected.
pub const STALE_PLAY_DAYS: u32 = 60;

/// Which starred gesture claimed a track.
#[derive(Clone, Copy, Debug, PartialEq, Eq, PartialOrd, Ord, Hash, Structural)]
pub enum PinTier {
    Song,
    Album,
    Artist,
}

impl PinTier {
    /// Stable label for the status surface and the logs.
    pub fn label(self) -> (r: &'static str)
        ensures
            r@ == (match self {
                PinTier::Song => "song"@,
                PinTier::Album => "album"@,
                PinTier::Artist => "artist"@,
            }),
    {
        match self {
            PinTier::Song => "song",
            PinTier::Album => "album",
            PinTier::Artist => "artist",
        }
    }

    /// Zero for a hand-picked gesture, one for the fan-out of a starred artist.
    pub open spec fn class_of(self) -> u8 {
        if self is Artist { 1 } else { 0 }
    }

    /// The tie-break within a class: an album before a loose song.
    pub open spec fn rank_of(self) -> u8 {
        match self {
            PinTier::Album => 0,
            PinTier::Song => 1,
            PinTier::Artist => 2,
        }
    }

    /// The first thing the frontier asks. A starred artist is the one unbounded gesture, so
    /// its fan-out never outranks something hand-picked.
    pub fn class(self) -> (r: u8)
        ensures
            r == self.class_of(),
    {
        match self {
            PinTier::Song | PinTier::Album => 0,
            PinTier::Artist => 1,
        }
    }

    /// The tie-break after neglect has spoken.
    pub fn rank(self) -> (r: u8)
        ensures
            r == self.rank_of(),
    {
        match self {
            PinTier::Album => 0,
            PinTier::Song => 1,
            PinTier::Artist => 2,
        }
    }
}

/// Emphasis among groups of equal neglect: albums first where anything is neglected, loose
/// songs first where nothing is, and the former before the latter.
pub open spec fn emphasis(tier: PinTier, has_cold: bool) -> u8 {
    if has_cold {
        tier.rank_of()
    } else {
        match tier {
            PinTier::Song => 3,
            PinTier::Album => 4,
            PinTier::Artist => 5,
        }
    }
}

/// The tier's tie-break, which speaks for albums only where there is neglect to emphasise.
pub fn emphasis_rank(tier: PinTier, has_cold: bool) -> (r: u8)
    ensures
        r == emphasis(tier, has_cold),
{
    if has_cold {
        tier.rank()
    } else {
        match tier {
            PinTier::Song => 3,
            PinTier::Album => 4,
            PinTier::Artist => 5,
        }
    }
}

/// The ranking rule in words.
pub open spec fn rule_text() -> Seq<char> {
    "not played in "@ + decimal(STALE_PLAY_DAYS as nat)
        + " days first, by share of the album; what is already on disk keeps a tie; starred albums before loose starred songs where anything is neglected, loose starred songs first where nothing is; a starred artist's other albums last"@
}

/// The frontier's rule in one line, built from the number the ranking uses.
pub fn frontier_rule() -> (r: String)
    ensures
        r@ == rule_text(),
{
    let mut out: String = "not played in ".to_owned();
    push_decimal(&mut out, STALE_PLAY_DAYS as u64);
    out.append(
        " days first, by share of the album; what is already on disk keeps a tie; starred albums before loose starred songs where anything is neglected, loose starred songs first where nothing is; a starred artist's other albums last",
    );
    out
}

/// A neglected track: last played long ago, or without a play record of any kind. A play
/// count without a readable date is still a record of a play.
pub open spec fn cold(s: Song, now_unix: u64) -> bool {
    match played_age(s, now_unix) {
        Some(days) => days >= STALE_PLAY_DAYS,
        None => unplayed(s),
    }
}

/// No play was counted.
pub open spec fn unplayed(s: Song) -> bool {
    match s.play_count {
        Some(n) => n == 0,
        None => true,
    }
}

/// Whether a track is neglected.
pub fn is_cold(s: &Song, now_unix: u64) -> (r: bool)
    ensures
        r == cold(*s, now_unix),
{
    match s.played_days_ago(now_unix) {
        None => s.play_count.unwrap_or(0) == 0,
        Some(d) => d >= STALE_PLAY_DAYS,
    }
}

/// What kind of entity a group came from.
#[derive(Clone, Copy, Debug, PartialEq, Eq, Hash, Structural)]
pub enum PinKind {
    Song,
    Album,
}

impl PinKind {
    /// The first segment of the entity's browse uri.
    pub open spec fn text(self) -> Seq<char> {
        match self {
            PinKind::Song => "song"@,
            PinKind::Album => "album"@,
        }
    }

    /// Label for the browse uri.
    pub fn label(self) -> (r: &'static str)
        ensures
            r@ == self.text(),
    {
        match self {
            PinKind::Song => "song",
            PinKind::Album => "album",
        }
    }
}

/// One indivisible unit of wanting: a starred song, or the tracks of one album.
#[derive(Debug, PartialEq)]
pub struct PinGroup {
    pub kind: PinKind,
    /// The entity's id, for its browse uri.
    pub id: String,
    /// The entity's name, for the lists a person reads.
    pub name: String,
    pub tier: PinTier,
    /// The tracks this group wants.
    pub songs: Vec<Song>,
}

/// The authoritative desired set of one pass, as groups, newest-starred-first within each
/// tier. It is complete or absent: a partial one would look authoritative.
#[derive(Debug, PartialEq)]
pub struct PinSet {
    pub groups: Vec<PinGroup>,
}

impl PinGroup {
    /// Two groups with the same contents.
    pub open spec fn same_as(self, other: PinGroup) -> bool {
        &&& self.kind == other.kind
        &&& self.id == other.id
        &&& self.name == other.name
        &&& self.tier == other.tier
        &&& self.songs@ == other.songs@
    }
}

impl Clone for PinGroup {
    fn clone(&self) -> (r: Self)
        ensures
            r.same_as(*self),
    {
        let mut songs: Vec<Song> = Vec::new();
        for i in 0..self.songs.len()
            invariant
                songs@ == self.songs@.take(i as int),
        {
            songs.push(self.songs[i].clone());
        }
        assert(self.songs@.take(self.songs@.len() as int) =~= self.songs@);
        PinGroup {
            kind: self.kind,
            id: self.id.clone(),
            name: self.name.clone(),
            tier: self.tier,
            songs,
        }
    }
}

impl Clone for PinSet {
    fn clone(&self) -> (r: Self)
        ensures
            r.groups@.len() == self.groups@.len(),
            forall|i: int|
                0 <= i < r.groups@.len() ==> (#[trigger] r.groups@[i]).same_as(self.groups@[i]),
    {
        let mut groups: Vec<PinGroup> = Vec::new();
        for i in 0..self.groups.len()
            invariant
                groups@.len() == i,
                forall|j: int|
                    0 <= j < i ==> (#[trigger] groups@[j]).same_as(self.groups@[j]),
        {
            groups.push(self.groups[i].clone());
        }
        PinSet { groups }
    }
}

/// The group a loose starred song makes.
pub open spec fn is_song_group(g: PinGroup, s: Song) -> bool {
    &&& g.kind == PinKind::Song
    &&& g.id == s.id.0
    &&& g.name == s.title
    &&& g.tier == PinTier::Song
    &&& g.songs@ == seq![s]
}

/// The songs of the first `k` groups, in order.
pub open spec fn pin_songs(groups: Seq<PinGroup>, k: int) -> Seq<Song>
    decreases k,
{
    if k <= 0 {
        Seq::empty()
    } else {
        pin_songs(groups, k - 1) + groups[k - 1].songs@
    }
}

impl PinSet {
    /// Every song of every group.
    pub open spec fn all_songs(self) -> Seq<Song> {
        pin_songs(self.groups@, self.groups@.len() as int)
    }

    /// One song group per song.
    pub fn of_songs(songs: Vec<Song>) -> (r: PinSet)
        ensures
            r.groups@.len() == songs@.len(),
            forall|i: int| 0 <= i < songs@.len() ==> is_song_group(#[trigger] r.groups@[i], songs@[i]),
    {
        let mut groups: Vec<PinGroup> = Vec::new();
        for i in 0..songs.len()
            invariant
                groups@.len() == i,
                forall|j: int| 0 <= j < i ==> is_song_group(#[trigger] groups@[j], songs@[j]),
        {
            let s: Song = songs[i].clone();
            let id: String = s.id.0.clone();
            let name: String = s.title.clone();
            let mut one: Vec<Song> = Vec::new();
            one.push(s);
            assert(one@ =~= seq![songs@[i as int]]);
            groups.push(
                PinGroup { kind: PinKind::Song, id, name, tier: PinTier::Song, songs: one },
            );
        }
        PinSet { groups }
    }

    /// Every song in every group, groups in order. A track may occur more than once.
    pub fn songs(&self) -> (r: Vec<&Song>)
        ensures
            r@.len() == self.all_songs().len(),
            forall|i: int| 0 <= i < r@.len() ==> *(#[trigger] r@[i]) == self.all_songs()[i],
    {
        let mut out: Vec<&Song> = Vec::new();
        for k in 0..self.groups.len()
            invariant
                out@.len() == pin_songs(self.groups@, k as int).len(),
                forall|i: int|
                    0 <= i < out@.len() ==> *(#[trigger] out@[i]) == pin_songs(
                        self.groups@,
                        k as int,
                    )[i],
        {
            let ghost before = pin_songs(self.groups@, k as int);
            let ghost after = pin_songs(self.groups@, k + 1);
            let g: &PinGroup = &self.groups[k];
            assert(after == before + g.songs@);
            for j in 0..g.songs.len()
                invariant
                    after == before + g.songs@,
                    out@.len() == before.len() + j,
                    forall|i: int| 0 <= i < out@.len() ==> *(#[trigger] out@[i]) == after[i],
            {
                out.push(&g.songs[j]);
            }
        }
        out
    }

    /// Whether no group wants anything.
    pub fn is_empty(&self) -> (r: bool)
        ensures
            r <==> forall|i: int|
                0 <= i < self.groups@.len() ==> (#[trigger] self.groups@[i]).songs@.len() == 0,
            r <==> self.all_songs().len() == 0,
    {
        let mut i: usize = 0;
        while i < self.groups.len()
            invariant
                i <= self.groups@.len(),
                forall|j: int| 0 <= j < i ==> (#[trigger] self.groups@[j]).songs@.len() == 0,
                pin_songs(self.groups@, i as int).len() == 0,
            decreases self.groups@.len() - i,
        {
            if self.groups[i].songs.len() > 0 {
                proof {
                    pin_songs_grow(self.groups@, i + 1, self.groups@.len() as int);
                }
                return false;
            }
            i = i + 1;
        }
        true
    }
}

impl Default for PinSet {
    fn default() -> (r: Self)
        ensures
            r.groups@.len() == 0,
    {
        PinSet { groups: Vec::new() }
    }
}

/// More groups list more songs.
pub proof fn pin_songs_grow(groups: Seq<PinGroup>, k: int, n: int)
    requires
        0 <= k <= n,
    ensures
        pin_songs(groups, k).len() <= pin_songs(groups, n).len(),
    decreases n - k,
{
    if k < n {
        pin_songs_grow(groups, k, n - 1);
    }
}

/// Neglect is a one-way latch: absent a new play, a cold track stays cold.
pub proof fn cold_is_a_latch(s: Song, now: u64, later: u64)
    requires
        now <= later,
        cold(s, now),
    ensures
        cold(s, later),
{
    crate::model::ages_only_grow(s, now, later);
}

/// Where a last play can be read, neglect goes by its age alone, whatever was counted; where
/// none can, by whether any play was counted at all.
pub proof fn neglect_goes_by_the_last_play(s: Song, now_unix: u64)
    ensures
        played_age(s, now_unix) matches Some(d) ==> (cold(s, now_unix) <==> d >= STALE_PLAY_DAYS),
        played_age(s, now_unix) is None && s.play_count is None ==> cold(s, now_unix),
        played_age(s, now_unix) is None && s.play_count is Some ==> (cold(s, now_unix)
            <==> s.play_count->0 == 0),
        cold(s, now_unix) && played_age(s, now_unix) is None ==> unplayed(s),
        unplayed(s) <==> s.play_count is None || s.play_count->0 == 0,
{
}

/// Of two songs with a readable last play, played in this order, the earlier is neglected no
/// later than the other: plays and everything else the server reports do not count.
pub proof fn the_longer_unheard_is_neglected_first(a: Song, b: Song, now_unix: u64)
    requires
        played_age(a, now_unix) is Some,
        played_age(b, now_unix) is Some,
        played_age(a, now_unix)->0 >= played_age(b, now_unix)->0,
        cold(b, now_unix),
    ensures
        cold(a, now_unix),
{
}

/// Hand-picked gestures are of one class, before a starred artist's fan-out. Where anything is
/// neglected, albums come before loose songs and those before the fan-out; where nothing is,
/// loose songs come first, and all that after all the former.
pub proof fn gestures_rank_in_order(a: PinTier, b: PinTier)
    ensures
        PinTier::Song.class_of() == PinTier::Album.class_of(),
        PinTier::Album.class_of() < PinTier::Artist.class_of(),
        emphasis(PinTier::Album, true) < emphasis(PinTier::Song, true) < emphasis(
            PinTier::Artist,
            true,
        ),
        emphasis(PinTier::Song, false) < emphasis(PinTier::Album, false) < emphasis(
            PinTier::Artist,
            false,
        ),
        emphasis(a, true) < emphasis(b, false),
        emphasis(a, true) == a.rank_of(),
{
}

/// A pin set lists the songs of its groups, group by group.
pub proof fn pin_sets_list_their_groups(pins: PinSet, k: int)
    requires
        0 <= k < pins.groups@.len(),
    ensures
        pin_songs(pins.groups@, 0) == Seq::<Song>::empty(),
        pin_songs(pins.groups@, k + 1) == pin_songs(pins.groups@, k) + pins.groups@[k].songs@,
        pins.all_songs() == pin_songs(pins.groups@, pins.groups@.len() as int),
{
}

/// A loose starred song is a group of its own, under its own id and title, with nothing else in
/// it; a copy of a group is the same in everything.
pub proof fn starred_songs_stand_alone(g: PinGroup, s: Song, other: PinGroup)
    ensures
        is_song_group(g, s) ==> g.kind == PinKind::Song && g.id == s.id.0 && g.name == s.title
            && g.tier == PinTier::Song && g.songs@.len() == 1 && g.songs@[0] == s,
        g.same_as(other) ==> g.kind == other.kind && g.id == other.id && g.name == other.name
            && g.tier == other.tier && g.songs@ == other.songs@,
{
}

} // verus!
