//! What is remembered between expansions, so that a chain of passes does not ask the server
//! for the same lists again.
use crate::expand::{recent, Wanted, ALBUM_MEMO_TTL, PIN_SET_MEMO_TTL};
use crate::model::{Album, Song};
use crate::pins::PinSet;
use vstd::prelude::*;

verus! {

/// One remembered album.
#[derive(Debug)]
pub struct AlbumMemo {
    pub id: String,
    pub at: u64,
    /// The track count that the listing gave at the time.
    pub song_count: u32,
    pub songs: Vec<Song>,
}

/// A remembered pin set.
#[derive(Debug)]
pub struct SetMemo {
    /// When its expansion began.
    pub began: u64,
    pub pins: PinSet,
}

/// Everything that is remembered.
#[derive(Debug)]
pub struct PinMemo {
    pub set: Option<SetMemo>,
    pub albums: Vec<AlbumMemo>,
}

/// What is remembered of an album; the last one where several claim it.
pub open spec fn memo_with(albums: Seq<AlbumMemo>, id: Seq<char>) -> Option<AlbumMemo>
    decreases albums.len(),
{
    if albums.len() == 0 {
        None
    } else if albums.last().id@ == id {
        Some(albums.last())
    } else {
        memo_with(albums.drop_last(), id)
    }
}

/// The tracks that need not be asked for: remembered recently enough, and of an album whose
/// track count still agrees.
pub open spec fn remembered_tracks(
    albums: Seq<AlbumMemo>,
    album: Album,
    now: u64,
) -> Option<Seq<Song>> {
    match memo_with(albums, album.id@) {
        Some(m) if recent(m.at, now, ALBUM_MEMO_TTL) && m.song_count == album.song_count => Some(
            m.songs@,
        ),
        _ => None,
    }
}

/// A walk wants an album.
pub open spec fn wanted(queue: Seq<Wanted>, id: Seq<char>) -> bool {
    exists|k: int| 0 <= k < queue.len() && (#[trigger] queue[k]).album.id@ == id
}

proof fn setting_the_last(albums: Seq<AlbumMemo>, at: int, m: AlbumMemo)
    requires
        0 <= at < albums.len(),
        albums[at].id@ == m.id@,
        forall|j: int| at < j < albums.len() ==> (#[trigger] albums[j]).id@ != m.id@,
    ensures
        memo_with(albums.update(at, m), m.id@) == Some(m),
        forall|other: Seq<char>|
            other != m.id@ ==> #[trigger] memo_with(albums.update(at, m), other) == memo_with(
                albums,
                other,
            ),
    decreases albums.len(),
{
    let now = albums.update(at, m);
    let short = albums.drop_last();
    if at == albums.len() - 1 {
        assert(now.drop_last() =~= short);
    } else {
        assert(albums[albums.len() - 1].id@ != m.id@);
        assert forall|j: int| at < j < short.len() implies (#[trigger] short[j]).id@ != m.id@ by {
            assert(albums[j].id@ != m.id@);
        }
        setting_the_last(short, at, m);
        assert(now.drop_last() =~= short.update(at, m));
        assert forall|other: Seq<char>| other != m.id@ implies #[trigger] memo_with(now, other)
            == memo_with(albums, other) by {
            assert(memo_with(short.update(at, m), other) == memo_with(short, other));
        }
    }
}

proof fn putting_in_front(albums: Seq<AlbumMemo>, m: AlbumMemo, id: Seq<char>)
    ensures
        memo_with(albums.insert(0, m), id) == (match memo_with(albums, id) {
            Some(x) => Some(x),
            None => if m.id@ == id {
                Some(m)
            } else {
                None
            },
        }),
    decreases albums.len(),
{
    let now = albums.insert(0, m);
    if albums.len() == 0 {
        assert(now =~= seq![m]);
        assert(now.drop_last() =~= Seq::empty());
    } else {
        assert(now.last() == albums.last());
        assert(now.drop_last() =~= albums.drop_last().insert(0, m));
        putting_in_front(albums.drop_last(), m, id);
    }
}

/// Copies a list of songs.
pub fn copy_songs(songs: &Vec<Song>) -> (r: Vec<Song>)
    ensures
        r@ == songs@,
{
    let mut out: Vec<Song> = Vec::new();
    for k in 0..songs.len()
        invariant
            out@ == songs@.take(k as int),
    {
        out.push(songs[k].clone());
    }
    assert(songs@.take(songs@.len() as int) =~= songs@);
    out
}

impl Default for PinMemo {
    fn default() -> (r: Self)
        ensures
            r.set is None,
            r.albums@.len() == 0,
    {
        PinMemo { set: None, albums: Vec::new() }
    }
}

impl PinMemo {
    /// A pin set is remembered, and still fresh.
    pub open spec fn holds_pins(self, now: u64) -> bool {
        match self.set {
            Some(m) => recent(m.began, now, PIN_SET_MEMO_TTL),
            None => false,
        }
    }

    /// The whole pin set, if its expansion began recently enough.
    pub fn pins(&self, now: u64) -> (r: Option<PinSet>)
        ensures
            r is Some <==> self.holds_pins(now),
            r is Some <==> self.set is Some && recent(self.set->0.began, now, PIN_SET_MEMO_TTL),
            r is Some ==> r->0.groups@.len() == self.set->0.pins.groups@.len(),
            r is Some ==> forall|i: int|
                0 <= i < r->0.groups@.len() ==> (#[trigger] r->0.groups@[i]).same_as(
                    self.set->0.pins.groups@[i],
                ),
    {
        match &self.set {
            Some(memo) => {
                if now.saturating_sub(memo.began) < PIN_SET_MEMO_TTL {
                    Some(memo.pins.clone())
                } else {
                    None
                }
            },
            None => None,
        }
    }

    /// The pin set that need not be expanded. Where starring pins nothing at all it is empty,
    /// and that is authoritative: what was pinned is demoted.
    pub fn standing_pins(&self, pin_starred: bool, now: u64) -> (r: Option<PinSet>)
        ensures
            r is Some <==> !pin_starred || self.holds_pins(now),
            r is Some <==> !pin_starred || (self.set is Some && recent(
                self.set->0.began,
                now,
                PIN_SET_MEMO_TTL,
            )),
            !pin_starred ==> r->0.groups@.len() == 0,
            pin_starred && r is Some ==> r->0.groups@.len() == self.set->0.pins.groups@.len(),
            pin_starred && r is Some ==> forall|i: int|
                0 <= i < r->0.groups@.len() ==> (#[trigger] r->0.groups@[i]).same_as(
                    self.set->0.pins.groups@[i],
                ),
    {
        if !pin_starred {
            return Some(PinSet { groups: Vec::new() });
        }
        self.pins(now)
    }

    /// Remembers a whole pin set. Only a complete expansion ever gets here, and it ages from
    /// its beginning.
    pub fn remember_pins(&mut self, began: u64, set: PinSet)
        ensures
            final(self).set == Some((SetMemo { began, pins: set })),
            final(self).albums == old(self).albums,
    {
        self.set = Some(SetMemo { began, pins: set });
    }

    fn find(&self, id: &String) -> (r: Option<usize>)
        ensures
            r is Some <==> memo_with(self.albums@, id@) is Some,
            r is Some ==> r->0 < self.albums@.len() && memo_with(self.albums@, id@) == Some(
                self.albums@[r->0 as int],
            ) && self.albums@[r->0 as int].id@ == id@,
            r is Some ==> forall|j: int|
                r->0 < j < self.albums@.len() ==> (#[trigger] self.albums@[j]).id@ != id@,
    {
        let mut i: usize = self.albums.len();
        assert(self.albums@.take(i as int) =~= self.albums@);
        while i > 0
            invariant
                i <= self.albums@.len(),
                memo_with(self.albums@, id@) == memo_with(self.albums@.take(i as int), id@),
                forall|j: int| i <= j < self.albums@.len() ==> (#[trigger] self.albums@[j]).id@ != id@,
            decreases i,
        {
            assert(self.albums@.take(i as int).drop_last() =~= self.albums@.take(i - 1));
            if self.albums[i - 1].id == *id {
                return Some(i - 1);
            }
            i = i - 1;
        }
        None
    }

    /// An album's tracks, where they need not be asked for.
    pub fn album_tracks(&self, album: &Album, now: u64) -> (r: Option<Vec<Song>>)
        ensures
            r is Some <==> remembered_tracks(self.albums@, *album, now) is Some,
            r is Some ==> r->0@ == remembered_tracks(self.albums@, *album, now)->0,
    {
        match self.find(&album.id.0) {
            Some(k) => {
                let m: &AlbumMemo = &self.albums[k];
                if now.saturating_sub(m.at) < ALBUM_MEMO_TTL && m.song_count == album.song_count {
                    Some(copy_songs(&m.songs))
                } else {
                    None
                }
            },
            None => None,
        }
    }

    /// Remembers an album's tracks, as of a moment.
    pub fn remember_album(&mut self, album: &Album, now: u64, songs: &Vec<Song>)
        ensures
            final(self).set == old(self).set,
            memo_with(final(self).albums@, album.id@) is Some,
            ({
                let m = memo_with(final(self).albums@, album.id@)->0;
                m.at == now && m.song_count == album.song_count && m.songs@ == songs@
            }),
            forall|other: Seq<char>|
                other != album.id@ ==> #[trigger] memo_with(final(self).albums@, other)
                    == memo_with(old(self).albums@, other),
    {
        let m: AlbumMemo = AlbumMemo {
            id: album.id.0.clone(),
            at: now,
            song_count: album.song_count,
            songs: copy_songs(songs),
        };
        match self.find(&album.id.0) {
            Some(k) => {
                proof {
                    setting_the_last(self.albums@, k as int, m);
                }
                self.albums.set(k, m);
            },
            None => {
                let ghost was = self.albums@;
                self.albums.push(m);
                assert(self.albums@.drop_last() =~= was);
            },
        }
    }

    /// Forgets the albums that a complete walk did not want, so that nothing piles up.
    pub fn retain(&mut self, queue: &Vec<Wanted>)
        ensures
            final(self).set == old(self).set,
            forall|id: Seq<char>| #[trigger]
                memo_with(final(self).albums@, id) == (if wanted(queue@, id) {
                    memo_with(old(self).albums@, id)
                } else {
                    None
                }),
    {
        let ghost was = self.albums@;
        let mut out: Vec<AlbumMemo> = Vec::new();
        while self.albums.len() > 0
            invariant
                self.set == old(self).set,
                was == old(self).albums@,
                forall|id: Seq<char>| #[trigger]
                    memo_with(was, id) == (match memo_with(out@, id) {
                        Some(x) => Some(x),
                        None => memo_with(self.albums@, id),
                    }) || !wanted(queue@, id),
                forall|id: Seq<char>|
                    !wanted(queue@, id) ==> #[trigger] memo_with(out@, id) is None,
            decreases self.albums@.len(),
        {
            let ghost list = self.albums@;
            let ghost kept = out@;
            match self.albums.pop() {
                Some(m) => {
                    let mut hit: bool = false;
                    for k in 0..queue.len()
                        invariant
                            hit == exists|j: int|
                                0 <= j < k && (#[trigger] queue@[j]).album.id@ == m.id@,
                    {
                        if queue[k].album.id.0 == m.id {
                            hit = true;
                        }
                    }
                    assert(hit == wanted(queue@, m.id@));
                    let ghost gone = m;
                    if hit {
                        out.insert(0, m);
                    }
                    proof {
                        assert(list.last() == gone);
                        assert(list.drop_last() =~= self.albums@);
                        assert forall|id: Seq<char>| #[trigger] memo_with(was, id) == (
                        match memo_with(out@, id) {
                            Some(x) => Some(x),
                            None => memo_with(self.albums@, id),
                        }) || !wanted(queue@, id) by {
                            putting_in_front(kept, gone, id);
                            assert(memo_with(was, id) == (match memo_with(kept, id) {
                                Some(x) => Some(x),
                                None => memo_with(list, id),
                            }) || !wanted(queue@, id));
                        }
                        assert forall|id: Seq<char>| !wanted(queue@, id) implies
                            #[trigger] memo_with(out@, id) is None by {
                            putting_in_front(kept, gone, id);
                            assert(memo_with(kept, id) is None);
                        }
                    }
                },
                None => {},
            }
        }
        proof {
            assert forall|id: Seq<char>| #[trigger] memo_with(out@, id) == (if wanted(
                queue@,
                id,
            ) {
                memo_with(was, id)
            } else {
                None
            }) by {
                let then = memo_with(was, id);
                assert(memo_with(self.albums@, id) is None);
            }
        }
        self.albums = out;
    }

    /// Forgets everything, because the pins themselves just changed.
    pub fn invalidate(&mut self)
        ensures
            final(self).set is None,
            final(self).albums@.len() == 0,
    {
        self.set = None;
        self.albums = Vec::new();
    }
}

/// What was remembered of an album is given back for as long as it is fresh and the album's
/// track count agrees, and not a moment longer.
pub proof fn albums_are_remembered_for_a_while(
    albums: Seq<AlbumMemo>,
    album: Album,
    at: u64,
    songs: Seq<Song>,
    now: u64,
)
    requires
        memo_with(albums, album.id@) is Some,
        ({
            let m = memo_with(albums, album.id@)->0;
            m.at == at && m.song_count == album.song_count && m.songs@ == songs
        }),
    ensures
        now < at + ALBUM_MEMO_TTL ==> remembered_tracks(albums, album, now) == Some(songs),
        now >= at + ALBUM_MEMO_TTL ==> remembered_tracks(albums, album, now) is None,
        forall|other: Album|
            other.id@ == album.id@ && other.song_count != album.song_count
                ==> #[trigger] remembered_tracks(albums, other, now) is None,
{
}

/// A pin set is given back for as long as it is fresh, counted from when its expansion began,
/// and not a moment longer; with none remembered there is none.
pub proof fn pin_sets_are_remembered_for_a_while(memo: PinMemo, now: u64)
    ensures
        memo.set is None ==> !memo.holds_pins(now),
        memo.set matches Some(m) ==> (memo.holds_pins(now) <==> now < m.began + PIN_SET_MEMO_TTL),
{
}

/// What is remembered of an album is the last that was: remembering another changes nothing of
/// it, and without one there is nothing.
pub proof fn the_last_memory_counts(albums: Seq<AlbumMemo>, m: AlbumMemo, id: Seq<char>)
    ensures
        memo_with(albums.push(m), m.id@) == Some(m),
        id != m.id@ ==> memo_with(albums.push(m), id) == memo_with(albums, id),
        memo_with(Seq::empty(), id) is None,
{
    assert(albums.push(m).drop_last() =~= albums);
}

} // verus!
