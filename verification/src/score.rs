//! The neglect evidence of pin groups: which of their tracks count, what those weigh, and how
//! much of that is music nobody has heard in a while.
use crate::budget::{capped, least, most};
use crate::entries::{entry_with, find_entry, IndexEntry};
use crate::model::{played_age, Song};
use crate::names::{is_storable_id, storable};
use crate::pins::{cold, is_cold, pin_songs, unplayed, PinGroup, PinSet};
use vstd::prelude::*;

verus! {

/// The byte cost of one id.
pub struct SizeEntry {
    pub id: String,
    pub bytes: u64,
}

/// The cost a table gives an id; nothing where it lists none.
pub open spec fn size_in(sizes: Seq<SizeEntry>, id: Seq<char>) -> int
    decreases sizes.len(),
{
    if sizes.len() == 0 {
        0
    } else if sizes[0].id@ == id {
        sizes[0].bytes as int
    } else {
        size_in(sizes.drop_first(), id)
    }
}

/// Whether a table lists an id.
pub open spec fn sized(sizes: Seq<SizeEntry>, id: Seq<char>) -> bool {
    exists|k: int| 0 <= k < sizes.len() && (#[trigger] sizes[k]).id@ == id
}

/// A track's byte cost: what the server reports, else what is on disk, else nothing.
pub open spec fn track_size(s: Song, entries: Seq<IndexEntry>) -> u64 {
    match s.size {
        Some(n) => n,
        None => match entry_with(entries, s.id@) {
            Some(e) => e.size,
            None => 0,
        },
    }
}

/// The cost of every storable id among these songs; the first occurrence decides.
pub open spec fn size_table(songs: Seq<Song>, entries: Seq<IndexEntry>) -> Seq<SizeEntry>
    decreases songs.len(),
{
    if songs.len() == 0 {
        Seq::empty()
    } else {
        let t = size_table(songs.drop_last(), entries);
        let s = songs.last();
        if storable(s.id@) && !sized(t, s.id@) {
            t.push(SizeEntry { id: s.id.0, bytes: track_size(s, entries) })
        } else {
            t
        }
    }
}

/// Whether a list of songs names an id.
pub open spec fn lists(songs: Seq<Song>, id: Seq<char>) -> bool {
    exists|i: int| 0 <= i < songs.len() && (#[trigger] songs[i]).id@ == id
}

/// A track that counts: storable, not among the skipped ids, and not named before.
pub open spec fn picked(songs: Seq<Song>, skip: Set<Seq<char>>, i: int) -> bool {
    &&& storable(songs[i].id@)
    &&& !skip.contains(songs[i].id@)
    &&& !lists(songs.take(i), songs[i].id@)
}

/// Positions below `n` of the tracks that count.
pub open spec fn picks(songs: Seq<Song>, skip: Set<Seq<char>>, n: int) -> Seq<usize>
    decreases n,
{
    if n <= 0 {
        Seq::empty()
    } else if picked(songs, skip, n - 1) {
        picks(songs, skip, n - 1).push((n - 1) as usize)
    } else {
        picks(songs, skip, n - 1)
    }
}

/// All the tracks of a list that count.
pub open spec fn tracks(songs: Seq<Song>, skip: Set<Seq<char>>) -> Seq<usize> {
    picks(songs, skip, songs.len() as int)
}

/// Bytes of the tracks at these positions.
pub open spec fn weight(songs: Seq<Song>, sizes: Seq<SizeEntry>, at: Seq<usize>) -> int
    decreases at.len(),
{
    if at.len() == 0 {
        0
    } else {
        weight(songs, sizes, at.drop_last()) + size_in(sizes, songs[at.last() as int].id@)
    }
}

/// Which of these tracks are neglected.
pub open spec fn cold_among(songs: Seq<Song>, at: Seq<usize>, now_unix: u64) -> Seq<usize> {
    at.filter(|i: usize| cold(songs[i as int], now_unix))
}

/// Which of these tracks were never played at all.
pub open spec fn never_among(songs: Seq<Song>, at: Seq<usize>, now_unix: u64) -> Seq<usize> {
    at.filter(
        |i: usize| played_age(songs[i as int], now_unix) is None && unplayed(songs[i as int]),
    )
}

/// Plays counted over the tracks at these positions.
pub open spec fn plays_over(songs: Seq<Song>, at: Seq<usize>) -> int
    decreases at.len(),
{
    if at.len() == 0 {
        0
    } else {
        plays_over(songs, at.drop_last()) + (match songs[at.last() as int].play_count {
            Some(n) => n as int,
            None => 0,
        })
    }
}

/// The freshest readable play among these tracks, as an age in days.
pub open spec fn freshest(songs: Seq<Song>, at: Seq<usize>, now_unix: u64) -> Option<int>
    decreases at.len(),
{
    if at.len() == 0 {
        None
    } else {
        let rest = freshest(songs, at.drop_last(), now_unix);
        match (rest, played_age(songs[at.last() as int], now_unix)) {
            (Some(a), Some(b)) => Some(least(a, b)),
            (None, Some(b)) => Some(b),
            (a, None) => a,
        }
    }
}

/// The stalest readable play among these tracks, as an age in days.
pub open spec fn stalest(songs: Seq<Song>, at: Seq<usize>, now_unix: u64) -> Option<int>
    decreases at.len(),
{
    if at.len() == 0 {
        None
    } else {
        let rest = stalest(songs, at.drop_last(), now_unix);
        match (rest, played_age(songs[at.last() as int], now_unix)) {
            (Some(a), Some(b)) => Some(most(a, b)),
            (None, Some(b)) => Some(b),
            (a, None) => a,
        }
    }
}

/// Tenths of a byte count that another is of it.
pub open spec fn decile_of(part: int, whole: int) -> int {
    if whole == 0 {
        0
    } else {
        part * 100 / whole / 10
    }
}

/// A group's own tracks.
pub open spec fn own_tracks(songs: Seq<Song>) -> Seq<usize> {
    tracks(songs, Set::empty())
}

/// Bytes a group asks for.
pub open spec fn asked_bytes(songs: Seq<Song>, sizes: Seq<SizeEntry>) -> int {
    capped(weight(songs, sizes, own_tracks(songs)))
}

/// Bytes a group asks for on behalf of neglected tracks.
pub open spec fn cold_weight(songs: Seq<Song>, sizes: Seq<SizeEntry>, now_unix: u64) -> int {
    capped(weight(songs, sizes, cold_among(songs, own_tracks(songs), now_unix)))
}

/// The neglected share of a group, in tenths.
pub open spec fn cold_share(songs: Seq<Song>, sizes: Seq<SizeEntry>, now_unix: u64) -> int {
    decile_of(cold_weight(songs, sizes, now_unix), asked_bytes(songs, sizes))
}

/// The neglect evidence of one pin group, over its own tracks.
#[derive(Clone, Copy, Debug, PartialEq, Eq, Structural)]
pub struct GroupScore {
    pub tracks: usize,
    pub bytes: u64,
    pub cold_tracks: usize,
    pub cold_bytes: u64,
    pub never_played: usize,
    pub plays: u32,
    pub last_played_days: Option<u32>,
    pub oldest_played_days: Option<u32>,
    /// 0 to 10, the neglected share by bytes.
    pub cold_decile: u8,
}

/// An optional number that reads as another.
pub open spec fn same_number(a: Option<u32>, b: Option<int>) -> bool {
    match (a, b) {
        (Some(x), Some(y)) => x == y,
        (None, None) => true,
        _ => false,
    }
}

impl GroupScore {
    /// The evidence that belongs to a list of songs.
    pub open spec fn is_of(self, songs: Seq<Song>, sizes: Seq<SizeEntry>, now_unix: u64) -> bool {
        let own = own_tracks(songs);
        &&& self.tracks == own.len()
        &&& self.bytes == asked_bytes(songs, sizes)
        &&& self.cold_tracks == cold_among(songs, own, now_unix).len()
        &&& self.cold_bytes == cold_weight(songs, sizes, now_unix)
        &&& self.never_played == never_among(songs, own, now_unix).len()
        &&& self.plays == least(plays_over(songs, own), u32::MAX as int)
        &&& same_number(self.last_played_days, freshest(songs, own, now_unix))
        &&& same_number(self.oldest_played_days, stalest(songs, own, now_unix))
        &&& self.cold_decile == cold_share(songs, sizes, now_unix)
    }

    /// Scores one group: its distinct storable tracks, weighed by bytes.
    pub fn of(g: &PinGroup, sizes: &Vec<SizeEntry>, now_unix: u64) -> (r: GroupScore)
        ensures
            r.is_of(g.songs@, sizes@, now_unix),
            r.cold_decile <= 10,
            r.cold_bytes <= r.bytes,
            r.cold_tracks <= r.tracks,
            r.never_played <= r.cold_tracks,
            r.last_played_days is Some <==> r.oldest_played_days is Some,
            r.last_played_days is Some ==> r.last_played_days->0 <= r.oldest_played_days->0,
    {
        reveal(Seq::filter);
        let mut s: GroupScore = GroupScore {
            tracks: 0,
            bytes: 0,
            cold_tracks: 0,
            cold_bytes: 0,
            never_played: 0,
            plays: 0,
            last_played_days: None,
            oldest_played_days: None,
            cold_decile: 0,
        };
        let ghost songs = g.songs@;
        let ghost none = Set::<Seq<char>>::empty();
        let ghost mut at: Seq<usize> = Seq::empty();
        for i in 0..g.songs.len()
            invariant
                songs == g.songs@,
                none == Set::<Seq<char>>::empty(),
                at == picks(songs, none, i as int),
                at.len() <= i,
                s.cold_decile == 0,
                s.tracks == at.len(),
                s.bytes == capped(weight(songs, sizes@, at)),
                s.cold_tracks == cold_among(songs, at, now_unix).len(),
                s.cold_bytes == capped(weight(songs, sizes@, cold_among(songs, at, now_unix))),
                weight(songs, sizes@, cold_among(songs, at, now_unix)) <= weight(songs, sizes@, at),
                0 <= weight(songs, sizes@, cold_among(songs, at, now_unix)),
                s.never_played == never_among(songs, at, now_unix).len(),
                s.never_played <= s.cold_tracks <= s.tracks,
                s.plays == least(plays_over(songs, at), u32::MAX as int),
                0 <= plays_over(songs, at),
                same_number(s.last_played_days, freshest(songs, at, now_unix)),
                same_number(s.oldest_played_days, stalest(songs, at, now_unix)),
        {
            reveal(Seq::filter);
            let song: &Song = &g.songs[i];
            if is_storable_id(song.id.0.as_str()) && !named_before(&g.songs, i) {
                assert(picked(songs, none, i as int));
                let size: u64 = size_of_id(sizes, &song.id.0);
                let ghost next = at.push(i);
                assert(next.drop_last() =~= at);
                assert(next.last() == i);
                proof {
                    let keep = |k: usize| cold(songs[k as int], now_unix);
                    let never = |k: usize|
                        played_age(songs[k as int], now_unix) is None && unplayed(songs[k as int]);
                    let c = cold_among(songs, at, now_unix);
                    if keep(i) {
                        assert(cold_among(songs, next, now_unix) == c.push(i));
                        assert(c.push(i).drop_last() =~= c);
                    } else {
                        assert(cold_among(songs, next, now_unix) == c);
                    }
                    let v = never_among(songs, at, now_unix);
                    if never(i) {
                        assert(never_among(songs, next, now_unix) == v.push(i));
                    } else {
                        assert(never_among(songs, next, now_unix) == v);
                    }
                }
                s.tracks = s.tracks + 1;
                s.bytes = s.bytes.saturating_add(size);
                s.plays = s.plays.saturating_add(song.play_count.unwrap_or(0));
                match song.played_days_ago(now_unix) {
                    None => {
                        if song.play_count.unwrap_or(0) == 0 {
                            s.never_played = s.never_played + 1;
                        }
                    },
                    Some(d) => {
                        s.last_played_days = match s.last_played_days {
                            Some(x) => if x <= d {
                                Some(x)
                            } else {
                                Some(d)
                            },
                            None => Some(d),
                        };
                        s.oldest_played_days = match s.oldest_played_days {
                            Some(x) => if x >= d {
                                Some(x)
                            } else {
                                Some(d)
                            },
                            None => Some(d),
                        };
                    },
                }
                if is_cold(song, now_unix) {
                    s.cold_tracks = s.cold_tracks + 1;
                    s.cold_bytes = s.cold_bytes.saturating_add(size);
                }
                proof {
                    at = next;
                }
            } else {
                assert(!picked(songs, none, i as int));
            }
        }
        assert(at == own_tracks(songs));
        proof {
            plays_span_an_interval(songs, at, now_unix);
        }
        if s.bytes != 0 {
            let part: u128 = s.cold_bytes as u128;
            let whole: u128 = s.bytes as u128;
            let pct: u128 = part * 100 / whole;
            proof {
                let p = s.cold_bytes as int;
                let w = s.bytes as int;
                assert(0 <= p * 100 / w <= 100) by (nonlinear_arith)
                    requires
                        0 <= p <= w,
                        w > 0,
                ;
                assert(pct == p * 100 / w);
            }
            s.cold_decile = (pct / 10) as u8;
        }
        s
    }
}

/// Whether an earlier song carries the same id.
pub fn named_before(songs: &Vec<Song>, i: usize) -> (r: bool)
    requires
        i < songs@.len(),
    ensures
        r == lists(songs@.take(i as int), songs@[i as int].id@),
{
    for j in 0..i
        invariant
            i < songs@.len(),
            forall|k: int| 0 <= k < j ==> (#[trigger] songs@[k]).id@ != songs@[i as int].id@,
    {
        if songs[j].id.0 == songs[i].id.0 {
            assert(songs@.take(i as int)[j as int].id@ == songs@[i as int].id@);
            return true;
        }
    }
    false
}

/// The cost a table gives an id.
pub fn size_of_id(sizes: &Vec<SizeEntry>, id: &String) -> (r: u64)
    ensures
        r == size_in(sizes@, id@),
{
    assert(sizes@.skip(0) =~= sizes@);
    for k in 0..sizes.len()
        invariant
            size_in(sizes@, id@) == size_in(sizes@.skip(k as int), id@),
    {
        assert(sizes@.skip(k as int).drop_first() =~= sizes@.skip(k + 1));
        if sizes[k].id == *id {
            return sizes[k].bytes;
        }
    }
    0
}

/// Whether a table lists an id.
pub fn is_sized(sizes: &Vec<SizeEntry>, id: &String) -> (r: bool)
    ensures
        r == sized(sizes@, id@),
{
    for k in 0..sizes.len()
        invariant
            forall|j: int| 0 <= j < k ==> (#[trigger] sizes@[j]).id@ != id@,
    {
        if sizes[k].id == *id {
            return true;
        }
    }
    false
}

/// The cost table of a pin set: the server's sizes, else those on disk, first occurrence
/// first.
pub fn sizes_of(pins: &PinSet, entries: &Vec<IndexEntry>) -> (r: Vec<SizeEntry>)
    ensures
        r@ == size_table(pins.all_songs(), entries@),
{
    let mut out: Vec<SizeEntry> = Vec::new();
    for k in 0..pins.groups.len()
        invariant
            out@ == size_table(pin_songs(pins.groups@, k as int), entries@),
    {
        let g: &PinGroup = &pins.groups[k];
        let ghost done = pin_songs(pins.groups@, k as int);
        assert(done + g.songs@.take(0) =~= done);
        for j in 0..g.songs.len()
            invariant
                out@ == size_table(done + g.songs@.take(j as int), entries@),
        {
            let s: &Song = &g.songs[j];
            let ghost seen = done + g.songs@.take(j as int);
            let ghost next = done + g.songs@.take(j + 1);
            assert(next.drop_last() =~= seen);
            assert(next.last() == *s);
            if is_storable_id(s.id.0.as_str()) && !is_sized(&out, &s.id.0) {
                let bytes: u64 = match s.size {
                    Some(n) => n,
                    None => match find_entry(entries, &s.id.0) {
                        Some(i) => entries[i].size,
                        None => 0,
                    },
                };
                out.push(SizeEntry { id: s.id.0.clone(), bytes });
            }
        }
        assert(done + g.songs@.take(g.songs@.len() as int) =~= pin_songs(pins.groups@, k + 1));
    }
    out
}

/// Bytes of the tracks at these positions, as far as 64 bits go.
pub fn weigh(songs: &Vec<Song>, sizes: &Vec<SizeEntry>, at: &Vec<usize>) -> (r: u64)
    requires
        forall|k: int| 0 <= k < at@.len() ==> (#[trigger] at@[k]) < songs@.len(),
    ensures
        r == capped(weight(songs@, sizes@, at@)),
{
    let mut sum: u64 = 0;
    for k in 0..at.len()
        invariant
            forall|k: int| 0 <= k < at@.len() ==> (#[trigger] at@[k]) < songs@.len(),
            sum == capped(weight(songs@, sizes@, at@.take(k as int))),
            0 <= weight(songs@, sizes@, at@.take(k as int)),
    {
        assert(at@.take(k + 1).drop_last() =~= at@.take(k as int));
        let n: u64 = size_of_id(sizes, &songs[at[k]].id.0);
        sum = sum.saturating_add(n);
    }
    assert(at@.take(at@.len() as int) =~= at@);
    sum
}

/// No id costs less than nothing.
pub proof fn sizes_are_natural(sizes: Seq<SizeEntry>, id: Seq<char>)
    ensures
        0 <= size_in(sizes, id) <= u64::MAX,
    decreases sizes.len(),
{
    if sizes.len() > 0 {
        sizes_are_natural(sizes.drop_first(), id);
    }
}

/// No set of tracks weighs less than nothing.
pub proof fn weights_are_natural(songs: Seq<Song>, sizes: Seq<SizeEntry>, at: Seq<usize>)
    ensures
        0 <= weight(songs, sizes, at),
    decreases at.len(),
{
    if at.len() > 0 {
        weights_are_natural(songs, sizes, at.drop_last());
        sizes_are_natural(sizes, songs[at.last() as int].id@);
    }
}

/// The positions picked are those that count, in order.
pub proof fn picks_are_picked(songs: Seq<Song>, skip: Set<Seq<char>>, n: int)
    requires
        0 <= n <= songs.len(),
        songs.len() <= usize::MAX,
    ensures
        picks(songs, skip, n).len() <= n,
        forall|k: int|
            0 <= k < picks(songs, skip, n).len() ==> (#[trigger] picks(songs, skip, n)[k]) < n
                && picked(songs, skip, picks(songs, skip, n)[k] as int),
        forall|a: int, b: int|
            0 <= a < b < picks(songs, skip, n).len() ==> (#[trigger] picks(songs, skip, n)[a])
                < (#[trigger] picks(songs, skip, n)[b]),
        forall|i: int|
            0 <= i < n && picked(songs, skip, i) ==> picks(songs, skip, n).contains(
                #[trigger] (i as usize),
            ),
    decreases n,
{
    if n > 0 {
        picks_are_picked(songs, skip, n - 1);
        let p = picks(songs, skip, n - 1);
        let q = picks(songs, skip, n);
        assert forall|i: int| 0 <= i < n && picked(songs, skip, i) implies q.contains(
            #[trigger] (i as usize),
        ) by {
            if i == n - 1 {
                assert(q[p.len() as int] == i as usize);
            } else {
                assert(p.contains(i as usize));
                let k = choose|k: int| 0 <= k < p.len() && p[k] == i as usize;
                assert(q[k] == i as usize);
            }
        }
    }
}

/// A neglected share is a share: it never passes ten tenths.
pub proof fn cold_share_is_a_share(songs: Seq<Song>, sizes: Seq<SizeEntry>, now_unix: u64)
    ensures
        0 <= cold_weight(songs, sizes, now_unix) <= asked_bytes(songs, sizes),
        0 <= cold_share(songs, sizes, now_unix) <= 10,
{
    let own = own_tracks(songs);
    weight_of_cold(songs, sizes, own, now_unix);
    let p = cold_weight(songs, sizes, now_unix);
    let w = asked_bytes(songs, sizes);
    if w > 0 {
        assert(0 <= p * 100 / w <= 100) by (nonlinear_arith)
            requires
                0 <= p <= w,
                w > 0,
        ;
    }
}

proof fn weight_of_cold(songs: Seq<Song>, sizes: Seq<SizeEntry>, at: Seq<usize>, now_unix: u64)
    ensures
        0 <= weight(songs, sizes, cold_among(songs, at, now_unix)) <= weight(songs, sizes, at),
    decreases at.len(),
{
    reveal(Seq::filter);
    weights_are_natural(songs, sizes, at);
    if at.len() > 0 {
        let rest = at.drop_last();
        weight_of_cold(songs, sizes, rest, now_unix);
        sizes_are_natural(sizes, songs[at.last() as int].id@);
        let c = cold_among(songs, rest, now_unix);
        if cold(songs[at.last() as int], now_unix) {
            assert(cold_among(songs, at, now_unix) == c.push(at.last()));
            assert(c.push(at.last()).drop_last() =~= c);
        } else {
            assert(cold_among(songs, at, now_unix) == c);
        }
    }
}

/// The freshest play is no older than the stalest; there is one where there is the other.
pub proof fn plays_span_an_interval(songs: Seq<Song>, at: Seq<usize>, now_unix: u64)
    ensures
        freshest(songs, at, now_unix) is Some <==> stalest(songs, at, now_unix) is Some,
        freshest(songs, at, now_unix) is Some ==> freshest(songs, at, now_unix)->0 <= stalest(
            songs,
            at,
            now_unix,
        )->0,
    decreases at.len(),
{
    if at.len() > 0 {
        plays_span_an_interval(songs, at.drop_last(), now_unix);
    }
}

/// Two choices of the same songs, in the same order, out of two lists.
pub open spec fn same_choice(s: Seq<Song>, a: Seq<usize>, t: Seq<Song>, b: Seq<usize>) -> bool {
    &&& a.len() == b.len()
    &&& forall|k: int| 0 <= k < a.len() ==> s[(#[trigger] a[k]) as int] == t[b[k] as int]
}

proof fn same_choices_stay_so(
    s: Seq<Song>,
    a: Seq<usize>,
    t: Seq<Song>,
    b: Seq<usize>,
    keep: spec_fn(Song) -> bool,
)
    requires
        same_choice(s, a, t, b),
    ensures
        same_choice(
            s,
            a.filter(|i: usize| keep(s[i as int])),
            t,
            b.filter(|i: usize| keep(t[i as int])),
        ),
    decreases a.len(),
{
    reveal(Seq::filter);
    if a.len() > 0 {
        let x = a.drop_last();
        let y = b.drop_last();
        assert forall|k: int| 0 <= k < x.len() implies s[(#[trigger] x[k]) as int]
            == t[y[k] as int] by {
            assert(x[k] == a[k] && y[k] == b[k]);
        }
        same_choices_stay_so(s, x, t, y, keep);
        assert(s[a[a.len() - 1] as int] == t[b[b.len() - 1] as int]);
        let fa = |i: usize| keep(s[i as int]);
        let fb = |i: usize| keep(t[i as int]);
        let p = x.filter(fa);
        let q = y.filter(fb);
        if keep(s[a.last() as int]) {
            assert(a.filter(fa) == p.push(a.last()));
            assert(b.filter(fb) == q.push(b.last()));
        } else {
            assert(a.filter(fa) == p);
            assert(b.filter(fb) == q);
        }
    }
}

proof fn same_choices_count_alike(
    s: Seq<Song>,
    a: Seq<usize>,
    t: Seq<Song>,
    b: Seq<usize>,
    sizes: Seq<SizeEntry>,
    now_unix: u64,
)
    requires
        same_choice(s, a, t, b),
    ensures
        weight(s, sizes, a) == weight(t, sizes, b),
        plays_over(s, a) == plays_over(t, b),
        freshest(s, a, now_unix) == freshest(t, b, now_unix),
        stalest(s, a, now_unix) == stalest(t, b, now_unix),
    decreases a.len(),
{
    if a.len() > 0 {
        let x = a.drop_last();
        let y = b.drop_last();
        assert forall|k: int| 0 <= k < x.len() implies s[(#[trigger] x[k]) as int]
            == t[y[k] as int] by {
            assert(x[k] == a[k] && y[k] == b[k]);
        }
        same_choices_count_alike(s, x, t, y, sizes, now_unix);
        assert(s[a[a.len() - 1] as int] == t[b[b.len() - 1] as int]);
    }
}

/// The tracks that count are the same once a song that does not is gone.
proof fn picks_pass_over(songs: Seq<Song>, at: int, n: int)
    requires
        0 <= at < songs.len() <= usize::MAX,
        !picked(songs, Set::empty(), at),
        0 <= n <= songs.len(),
    ensures
        same_choice(
            songs,
            picks(songs, Set::empty(), n),
            songs.remove(at),
            picks(songs.remove(at), Set::empty(), if n <= at {
                n
            } else {
                n - 1
            }),
        ),
    decreases n,
{
    let none = Set::<Seq<char>>::empty();
    let rest = songs.remove(at);
    if n > 0 {
        picks_pass_over(songs, at, n - 1);
        let i = n - 1;
        let j = if i < at {
            i
        } else {
            i - 1
        };
        if i != at {
            let id = songs[i].id@;
            assert(rest[j] == songs[i]);
            let front = songs.take(i);
            let short = rest.take(j);
            if lists(short, id) {
                let k = choose|k: int| 0 <= k < short.len() && (#[trigger] short[k]).id@ == id;
                let m = if k < at {
                    k
                } else {
                    k + 1
                };
                assert(front[m].id@ == id);
            }
            if lists(front, id) && storable(id) {
                let m = choose|m: int| 0 <= m < front.len() && (#[trigger] front[m]).id@ == id;
                if m == at {
                    let before = songs.take(at);
                    assert(lists(before, id));
                    let k = choose|k: int|
                        0 <= k < before.len() && (#[trigger] before[k]).id@ == id;
                    assert(short[k].id@ == id);
                } else if m < at {
                    assert(short[m].id@ == id);
                } else {
                    assert(short[m - 1].id@ == id);
                }
            }
            assert(picked(songs, none, i) == picked(rest, none, j));
        }
    }
}

/// A song that cannot be stored, or that was named before, changes nothing in a score: the
/// list without it has the same evidence.
pub proof fn only_own_tracks_score(
    score: GroupScore,
    songs: Seq<Song>,
    sizes: Seq<SizeEntry>,
    now_unix: u64,
    at: int,
)
    requires
        0 <= at < songs.len() <= usize::MAX,
        !storable(songs[at].id@) || lists(songs.take(at), songs[at].id@),
    ensures
        score.is_of(songs, sizes, now_unix) <==> score.is_of(songs.remove(at), sizes, now_unix),
{
    let rest = songs.remove(at);
    let a = own_tracks(songs);
    let b = own_tracks(rest);
    picks_pass_over(songs, at, songs.len() as int);
    same_choices_count_alike(songs, a, rest, b, sizes, now_unix);
    let is_cold = |s: Song| cold(s, now_unix);
    let is_new = |s: Song| played_age(s, now_unix) is None && unplayed(s);
    same_choices_stay_so(songs, a, rest, b, is_cold);
    same_choices_stay_so(songs, a, rest, b, is_new);
    let ca = cold_among(songs, a, now_unix);
    let cb = cold_among(rest, b, now_unix);
    assert(ca == a.filter(|i: usize| is_cold(songs[i as int]))) by {
        assert((|i: usize| cold(songs[i as int], now_unix)) =~= (|i: usize|
            is_cold(songs[i as int])));
    }
    assert(cb == b.filter(|i: usize| is_cold(rest[i as int]))) by {
        assert((|i: usize| cold(rest[i as int], now_unix)) =~= (|i: usize|
            is_cold(rest[i as int])));
    }
    same_choices_count_alike(songs, ca, rest, cb, sizes, now_unix);
    let na = never_among(songs, a, now_unix);
    let nb = never_among(rest, b, now_unix);
    assert(na == a.filter(|i: usize| is_new(songs[i as int]))) by {
        assert((|i: usize|
            played_age(songs[i as int], now_unix) is None && unplayed(songs[i as int])) =~= (
        |i: usize| is_new(songs[i as int])));
    }
    assert(nb == b.filter(|i: usize| is_new(rest[i as int]))) by {
        assert((|i: usize|
            played_age(rest[i as int], now_unix) is None && unplayed(rest[i as int])) =~= (
        |i: usize| is_new(rest[i as int])));
    }
}

proof fn listed_songs_are_sized(songs: Seq<Song>, entries: Seq<IndexEntry>, id: Seq<char>)
    requires
        storable(id),
        lists(songs, id),
    ensures
        sized(size_table(songs, entries), id),
    decreases songs.len(),
{
    let rest = songs.drop_last();
    let t = size_table(rest, entries);
    let now = size_table(songs, entries);
    if lists(rest, id) {
        listed_songs_are_sized(rest, entries, id);
    }
    if sized(t, id) {
        let k = choose|k: int| 0 <= k < t.len() && (#[trigger] t[k]).id@ == id;
        assert(now[k].id@ == id);
    } else {
        let i = choose|i: int| 0 <= i < songs.len() && (#[trigger] songs[i]).id@ == id;
        if i < rest.len() {
            assert(rest[i].id@ == id);
        }
        assert(now.last().id@ == id);
    }
}

/// Such a song changes no cost either.
pub proof fn only_own_tracks_cost(songs: Seq<Song>, entries: Seq<IndexEntry>, at: int)
    requires
        0 <= at < songs.len(),
        !storable(songs[at].id@) || lists(songs.take(at), songs[at].id@),
    ensures
        size_table(songs.remove(at), entries) == size_table(songs, entries),
    decreases songs.len(),
{
    let rest = songs.drop_last();
    if at == songs.len() - 1 {
        assert(songs.remove(at) =~= rest);
        assert(songs.take(at) =~= rest);
        if storable(songs[at].id@) {
            listed_songs_are_sized(rest, entries, songs[at].id@);
        }
    } else {
        assert(rest.take(at) =~= songs.take(at));
        only_own_tracks_cost(rest, entries, at);
        assert(songs.remove(at).drop_last() =~= rest.remove(at));
    }
}

/// Where the server reports every size, costs do not depend on what is on disk.
pub proof fn reported_costs_stand(songs: Seq<Song>, a: Seq<IndexEntry>, b: Seq<IndexEntry>)
    requires
        forall|i: int| 0 <= i < songs.len() ==> (#[trigger] songs[i]).size is Some,
    ensures
        size_table(songs, a) == size_table(songs, b),
    decreases songs.len(),
{
    if songs.len() > 0 {
        let rest = songs.drop_last();
        assert forall|i: int| 0 <= i < rest.len() implies (#[trigger] rest[i]).size is Some by {
            assert(rest[i] == songs[i]);
        }
        reported_costs_stand(rest, a, b);
        assert(songs[songs.len() - 1].size is Some);
    }
}

/// A group's neglect only ever grows: absent a new play, its share in tenths is monotone in
/// time.
pub proof fn cold_share_only_grows(songs: Seq<Song>, sizes: Seq<SizeEntry>, now: u64, later: u64)
    requires
        now <= later,
    ensures
        cold_share(songs, sizes, now) <= cold_share(songs, sizes, later),
{
    let own = own_tracks(songs);
    cold_weight_grows(songs, sizes, own, now, later);
    cold_share_is_a_share(songs, sizes, now);
    let a = cold_weight(songs, sizes, now);
    let b = cold_weight(songs, sizes, later);
    let w = asked_bytes(songs, sizes);
    if w > 0 {
        assert(a * 100 / w <= b * 100 / w) by (nonlinear_arith)
            requires
                0 <= a <= b,
                w > 0,
        ;
    }
}

proof fn cold_weight_grows(
    songs: Seq<Song>,
    sizes: Seq<SizeEntry>,
    at: Seq<usize>,
    now: u64,
    later: u64,
)
    requires
        now <= later,
    ensures
        weight(songs, sizes, cold_among(songs, at, now)) <= weight(
            songs,
            sizes,
            cold_among(songs, at, later),
        ),
    decreases at.len(),
{
    reveal(Seq::filter);
    if at.len() > 0 {
        let rest = at.drop_last();
        let s = songs[at.last() as int];
        cold_weight_grows(songs, sizes, rest, now, later);
        sizes_are_natural(sizes, s.id@);
        let c = cold_among(songs, rest, now);
        let d = cold_among(songs, rest, later);
        assert(c.push(at.last()).drop_last() =~= c);
        assert(d.push(at.last()).drop_last() =~= d);
        if cold(s, now) {
            crate::pins::cold_is_a_latch(s, now, later);
            assert(cold_among(songs, at, now) == c.push(at.last()));
            assert(cold_among(songs, at, later) == d.push(at.last()));
        } else {
            assert(cold_among(songs, at, now) == c);
            if cold(s, later) {
                assert(cold_among(songs, at, later) == d.push(at.last()));
            } else {
                assert(cold_among(songs, at, later) == d);
            }
        }
    }
}

} // verus!
