//! From what the user starred to the groups that the store wants: loose songs, albums, and
//! every album of a starred artist, newest first.
//!
//! The walk is all or nothing. A listing that fails ends it without a pin set, because a
//! partial one would look authoritative and demote what it happened to miss. Only an album or
//! an artist that is definitively gone expands to nothing.
use crate::frontier::places;
use crate::model::{Album, Artist, ArtistId, Song, Starred};
use crate::pins::{is_song_group, PinGroup, PinKind, PinSet, PinTier};
use crate::sorting::{sort_positions, sorting_keeps_elements};
use crate::text::{
    before, before_is_irreflexive, before_is_total, before_is_transitive, comes_before, same,
};
use vstd::prelude::*;
use vstd::relations::total_ordering;

verus! {

/// How long a whole pin set may be reused, in nanoseconds of a monotonic clock: thirty
/// seconds, so that a chain of passes expands once.
pub const PIN_SET_MEMO_TTL: u64 = 30_000_000_000;

/// How long one album's track list may be reused: six hours.
pub const ALBUM_MEMO_TTL: u64 = 21_600_000_000_000;

/// How many albums of one artist are expanded.
pub const ARTIST_ALBUM_CAP: usize = 100;

/// A moment is recent enough. One in the future is.
pub open spec fn recent(at: u64, now: u64, ttl: u64) -> bool {
    now - at < ttl
}

/// What a catalogue listing came back with.
#[derive(Debug)]
pub enum Reply<T> {
    Found(Vec<T>),
    /// Definitively not there.
    Gone,
    /// Could not be told.
    Failed(String),
}

/// What a reply says for certain.
pub open spec fn said<T>(reply: Reply<T>) -> Option<Seq<T>> {
    match reply {
        Reply::Found(v) => Some(v@),
        Reply::Gone => Some(Seq::empty()),
        Reply::Failed(_) => None,
    }
}

/// What a listing holds: one that is gone holds nothing, one that failed is a failure.
pub fn definitive<T>(reply: Reply<T>) -> (r: Result<Vec<T>, String>)
    ensures
        r is Ok <==> said(reply) is Some,
        r is Ok ==> r->Ok_0@ == said(reply)->0,
        r is Err <==> reply is Failed,
        r is Err ==> r->Err_0 == reply->Failed_0,
        reply is Found ==> r->Ok_0 == reply->Found_0,
        reply is Gone ==> r->Ok_0@.len() == 0,
{
    match reply {
        Reply::Found(v) => Ok(v),
        Reply::Gone => Ok(Vec::new()),
        Reply::Failed(e) => Err(e),
    }
}

/// When an album was added, as text; nothing for one that does not say.
pub open spec fn added(a: Album) -> Seq<char> {
    match a.created {
        Some(c) => c@,
        None => Seq::empty(),
    }
}

/// An album's year; zero for one that does not say.
pub open spec fn year_of(a: Album) -> u32 {
    match a.year {
        Some(y) => y,
        None => 0,
    }
}

/// One album comes before another: added later, or of a later year, or of a smaller id.
pub open spec fn newer(a: Album, b: Album) -> bool {
    ||| before(added(b), added(a))
    ||| added(a) == added(b) && year_of(b) < year_of(a)
    ||| added(a) == added(b) && year_of(b) == year_of(a) && before(a.id@, b.id@)
}

/// The order has nothing to say about two albums.
pub open spec fn tied(a: Album, b: Album) -> bool {
    added(a) == added(b) && year_of(a) == year_of(b) && a.id@ == b.id@
}

/// The order over positions of a list; equals keep their places.
pub open spec fn newest_order(albums: Seq<Album>) -> spec_fn(usize, usize) -> bool {
    |x: usize, y: usize|
        newer(albums[x as int], albums[y as int]) || (tied(albums[x as int], albums[y as int]) && x
            <= y)
}

/// A list of albums, newest first.
pub open spec fn newest_first(albums: Seq<Album>) -> Seq<Album> {
    let order = places(albums.len()).sort_by(newest_order(albums));
    Seq::new(order.len(), |k: int| albums[order[k] as int])
}

/// The albums of an artist that are expanded.
pub open spec fn newest(albums: Seq<Album>) -> Seq<Album> {
    let sorted = newest_first(albums);
    if sorted.len() > ARTIST_ALBUM_CAP {
        sorted.take(ARTIST_ALBUM_CAP as int)
    } else {
        sorted
    }
}

/// Of two albums one comes first, unless they are tied.
pub proof fn newest_order_is_strict(a: Album, b: Album, c: Album)
    ensures
        !newer(a, a),
        newer(a, b) || newer(b, a) || tied(a, b),
        !(newer(a, b) && newer(b, a)),
        newer(a, b) ==> !tied(a, b),
        newer(a, b) && newer(b, c) ==> newer(a, c),
{
    before_is_irreflexive(added(a));
    before_is_irreflexive(added(b));
    before_is_irreflexive(a.id@);
    before_is_irreflexive(b.id@);
    before_is_total(added(a), added(b));
    before_is_total(a.id@, b.id@);
    if before(added(b), added(a)) && before(added(a), added(b)) {
        before_is_transitive(added(b), added(a), added(b));
    }
    if before(a.id@, b.id@) && before(b.id@, a.id@) {
        before_is_transitive(a.id@, b.id@, a.id@);
    }
    if before(added(c), added(b)) && before(added(b), added(a)) {
        before_is_transitive(added(c), added(b), added(a));
    }
    if before(a.id@, b.id@) && before(b.id@, c.id@) {
        before_is_transitive(a.id@, b.id@, c.id@);
    }
}

proof fn newest_order_is_total(albums: Seq<Album>)
    ensures
        total_ordering(newest_order(albums)),
{
    let r = newest_order(albums);
    assert forall|x: usize, y: usize, z: usize| #[trigger] r(x, y) && #[trigger] r(y, z) implies r(
        x,
        z,
    ) by {
        newest_order_is_strict(albums[x as int], albums[y as int], albums[z as int]);
    }
    assert forall|x: usize, y: usize| #[trigger] r(x, y) && #[trigger] r(y, x) implies x == y by {
        let (a, b) = (albums[x as int], albums[y as int]);
        newest_order_is_strict(a, b, a);
        newest_order_is_strict(b, a, b);
    }
    assert forall|x: usize, y: usize| #[trigger] r(x, y) || #[trigger] r(y, x) by {
        let (a, b) = (albums[x as int], albums[y as int]);
        newest_order_is_strict(a, b, a);
    }
    assert forall|x: usize| #[trigger] r(x, x) by {}
}

/// When an album was added, as text.
fn added_text(a: &Album) -> (r: &str)
    ensures
        r@ == added(*a),
{
    proof {
        reveal_strlit("");
    }
    match &a.created {
        Some(c) => c.as_str(),
        None => {
            assert(""@ =~= Seq::empty());
            ""
        },
    }
}

/// Whether one album goes before another, or is tied with it and already stands there.
fn goes_first(a: &Album, b: &Album, stands: bool) -> (r: bool)
    ensures
        r == (newer(*a, *b) || (tied(*a, *b) && stands)),
{
    let ca: &str = added_text(a);
    let cb: &str = added_text(b);
    proof {
        newest_order_is_strict(*a, *b, *a);
        before_is_irreflexive(added(*a));
    }
    if comes_before(cb, ca) {
        return true;
    }
    if !same(ca, cb) {
        return false;
    }
    let ya: u32 = match a.year {
        Some(y) => y,
        None => 0,
    };
    let yb: u32 = match b.year {
        Some(y) => y,
        None => 0,
    };
    if ya != yb {
        return yb < ya;
    }
    comes_before(a.id.0.as_str(), b.id.0.as_str()) || (a.id.0 == b.id.0 && stands)
}

/// Puts an artist's albums in order, newest first: by when they were added, then by year, then
/// by id.
pub fn sort_albums_newest_first(albums: &mut Vec<Album>)
    ensures
        final(albums)@ == newest_first(old(albums)@),
        final(albums)@.len() == old(albums)@.len(),
{
    let n: usize = albums.len();
    let mut start: Vec<usize> = Vec::new();
    for i in 0..n
        invariant
            start@ =~= places(i as nat),
    {
        start.push(i);
    }
    let mut out: Vec<Album> = Vec::new();
    {
        let list: &Vec<Album> = &*albums;
        let ghost leq = newest_order(list@);
        let first = |x: usize, y: usize| -> (b: bool)
            requires
                x < list@.len(),
                y < list@.len(),
            ensures
                b == leq(x, y),
            { goes_first(&list[x], &list[y], x <= y) };
        proof {
            newest_order_is_total(list@);
            sorting_keeps_elements(start@, leq);
        }
        let order: Vec<usize> = sort_positions(&start, first, Ghost(leq));
        for k in 0..n
            invariant
                n == list@.len(),
                order@.len() == n,
                start@ =~= places(n as nat),
                forall|x: usize| order@.contains(x) <==> start@.contains(x),
                out@ =~= Seq::new(k as nat, |j: int| list@[order@[j] as int]),
        {
            assert(order@.contains(order@[k as int]));
            assert(start@.contains(order@[k as int]));
            out.push(list[order[k]].clone());
        }
        assert(out@ =~= newest_first(list@));
    }
    *albums = out;
}

/// Sorting drops nothing and adds nothing, and leaves no album before one newer than itself.
pub proof fn sorted_albums_are_newest_first(albums: Seq<Album>)
    requires
        albums.len() <= usize::MAX,
    ensures
        newest_first(albums).len() == albums.len(),
        forall|i: int, j: int|
            0 <= i < j < albums.len() ==> !newer(
                #[trigger] newest_first(albums)[j],
                #[trigger] newest_first(albums)[i],
            ),
        forall|i: int|
            0 <= i < albums.len() ==> albums.contains(#[trigger] newest_first(albums)[i]),
        forall|i: int|
            0 <= i < albums.len() ==> newest_first(albums).contains(#[trigger] albums[i]),
{
    let start = places(albums.len());
    let leq = newest_order(albums);
    newest_order_is_total(albums);
    sorting_keeps_elements(start, leq);
    let order = start.sort_by(leq);
    let sorted = newest_first(albums);
    assert forall|i: int, j: int| 0 <= i < j < albums.len() implies !newer(
        #[trigger] sorted[j],
        #[trigger] sorted[i],
    ) by {
        assert(leq(order[i], order[j]));
        newest_order_is_strict(sorted[i], sorted[j], sorted[i]);
        newest_order_is_strict(sorted[j], sorted[i], sorted[j]);
    }
    assert forall|i: int| 0 <= i < albums.len() implies albums.contains(#[trigger] sorted[i]) by {
        assert(order.contains(order[i]));
        assert(start.contains(order[i]));
    }
    assert forall|i: int| 0 <= i < albums.len() implies sorted.contains(#[trigger] albums[i]) by {
        assert(start[i] == i as usize);
        assert(start.contains(i as usize));
        assert(order.contains(i as usize));
        let k = choose|k: int| 0 <= k < order.len() && order[k] == i as usize;
        assert(sorted[k] == albums[i]);
    }
}

/// One album whose tracks are wanted.
#[derive(Debug)]
pub struct Wanted {
    pub album: Album,
    /// What its group is called.
    pub name: String,
    pub tier: PinTier,
}

/// What a walk needs to hear next.
#[derive(Debug)]
pub enum Ask {
    /// The tracks of this album.
    Album(Album),
    /// The albums of this artist.
    Artist(ArtistId),
    /// Nothing: the pin set is complete.
    Nothing,
}

/// An expansion under way.
pub struct PinWalk {
    pub starred: Starred,
    pub groups: Vec<PinGroup>,
    /// The albums wanted so far.
    pub queue: Vec<Wanted>,
    /// How many of them have been expanded.
    pub asked: usize,
    /// How many artists have been listed.
    pub artists: usize,
    /// What was taken of each artist that has been listed.
    pub listed: Ghost<Seq<Seq<Album>>>,
    /// What was heard of each album that has been expanded.
    pub heard: Ghost<Seq<Seq<Song>>>,
}

/// What an album is called as part of an artist.
pub open spec fn by_artist(artist: Artist, album: Album) -> Seq<char> {
    artist.name@ + " - "@ + album.name@
}

/// A wanted album, under a name, for a tier.
pub open spec fn wants(w: Wanted, album: Album, name: Seq<char>, tier: PinTier) -> bool {
    w.album == album && w.name@ == name && w.tier == tier
}

/// The group of an expanded album.
pub open spec fn is_album_group(g: PinGroup, w: Wanted, songs: Seq<Song>) -> bool {
    &&& g.kind == PinKind::Album
    &&& g.id == w.album.id.0
    &&& g.name@ == w.name@
    &&& g.tier == w.tier
    &&& g.songs@ == songs
}

/// Albums of the first `n` artists.
pub open spec fn listed_upto(listed: Seq<Seq<Album>>, n: int) -> nat
    decreases n,
{
    if n <= 0 {
        0
    } else {
        listed_upto(listed, n - 1) + listed[n - 1].len()
    }
}

impl PinWalk {
    /// The queue holds the starred albums, in order, and then what was taken of each artist
    /// listed so far, artist by artist; the groups are those of the starred songs and of the
    /// albums expanded so far, each with the tracks that were heard of it.
    pub open spec fn wf(self) -> bool {
        let songs = self.starred.songs@;
        let albums = self.starred.albums@;
        let artists = self.starred.artists@;
        let listed = self.listed@;
        &&& self.asked <= self.queue@.len()
        &&& self.artists <= artists.len()
        &&& listed.len() == self.artists
        &&& self.queue@.len() == albums.len() + listed_upto(listed, listed.len() as int)
        &&& forall|i: int|
            0 <= i < albums.len() ==> wants(
                #[trigger] self.queue@[i],
                albums[i],
                albums[i].name@,
                PinTier::Album,
            )
        &&& forall|a: int, i: int|
            0 <= a < listed.len() && 0 <= i < listed[a].len() ==> wants(
                self.queue@[albums.len() + listed_upto(listed, a) + i],
                #[trigger] listed[a][i],
                by_artist(artists[a], listed[a][i]),
                PinTier::Artist,
            )
        &&& self.heard@.len() == self.asked
        &&& self.groups@.len() == songs.len() + self.asked
        &&& forall|i: int| 0 <= i < songs.len() ==> is_song_group(#[trigger] self.groups@[i], songs[i])
        &&& forall|i: int|
            0 <= i < self.asked ==> is_album_group(
                #[trigger] self.groups@[songs.len() + i],
                self.queue@[i],
                self.heard@[i],
            )
    }

    /// Everything wanted has been heard.
    pub open spec fn done(self) -> bool {
        self.asked == self.queue@.len() && self.artists == self.starred.artists@.len()
    }

    /// Starts from what is starred: the songs are groups already, the albums are wanted.
    pub fn start(starred: Starred) -> (r: PinWalk)
        ensures
            r.wf(),
            r.starred == starred,
            r.asked == 0,
            r.artists == 0,
            r.listed@.len() == 0,
            r.heard@.len() == 0,
    {
        let mut groups: Vec<PinGroup> = Vec::new();
        for i in 0..starred.songs.len()
            invariant
                groups@.len() == i,
                forall|j: int|
                    0 <= j < i ==> is_song_group(#[trigger] groups@[j], starred.songs@[j]),
        {
            let s: &Song = &starred.songs[i];
            let mut songs: Vec<Song> = Vec::new();
            songs.push(s.clone());
            assert(songs@ =~= seq![*s]);
            groups.push(
                PinGroup {
                    kind: PinKind::Song,
                    id: s.id.0.clone(),
                    name: s.title.clone(),
                    tier: PinTier::Song,
                    songs,
                },
            );
        }
        let mut queue: Vec<Wanted> = Vec::new();
        for i in 0..starred.albums.len()
            invariant
                queue@.len() == i,
                forall|j: int|
                    0 <= j < i ==> wants(
                        #[trigger] queue@[j],
                        starred.albums@[j],
                        starred.albums@[j].name@,
                        PinTier::Album,
                    ),
        {
            let a: &Album = &starred.albums[i];
            queue.push(Wanted { album: a.clone(), name: a.name.clone(), tier: PinTier::Album });
        }
        PinWalk {
            starred,
            groups,
            queue,
            asked: 0,
            artists: 0,
            listed: Ghost(Seq::empty()),
            heard: Ghost(Seq::empty()),
        }
    }

    /// What the walk needs to hear next: the tracks of every wanted album before the next
    /// artist.
    pub fn next(&self) -> (r: Ask)
        requires
            self.wf(),
        ensures
            r is Nothing <==> self.done(),
            r is Album <==> self.asked < self.queue@.len(),
            r is Album ==> r->Album_0 == self.queue@[self.asked as int].album,
            r is Artist ==> self.artists < self.starred.artists@.len() && r->Artist_0
                == self.starred.artists@[self.artists as int].id,
    {
        if self.asked < self.queue.len() {
            Ask::Album(self.queue[self.asked].album.clone())
        } else if self.artists < self.starred.artists.len() {
            Ask::Artist(self.starred.artists[self.artists].id.clone())
        } else {
            Ask::Nothing
        }
    }

    /// Takes the tracks of the album that was asked for: they make one group, held whole or
    /// not at all.
    pub fn heard_album(&mut self, songs: Vec<Song>)
        requires
            old(self).wf(),
            old(self).asked < old(self).queue@.len(),
        ensures
            final(self).wf(),
            final(self).starred == old(self).starred,
            final(self).queue == old(self).queue,
            final(self).artists == old(self).artists,
            final(self).listed == old(self).listed,
            final(self).heard@ == old(self).heard@.push(songs@),
            final(self).asked == old(self).asked + 1,
            final(self).groups@.len() == old(self).groups@.len() + 1,
            final(self).groups@.drop_last() == old(self).groups@,
            is_album_group(
                final(self).groups@.last(),
                old(self).queue@[old(self).asked as int],
                songs@,
            ),
    {
        let ghost was = *self;
        let ghost given = songs@;
        let group: PinGroup = {
            let w: &Wanted = &self.queue[self.asked];
            PinGroup {
                kind: PinKind::Album,
                id: w.album.id.0.clone(),
                name: w.name.clone(),
                tier: w.tier,
                songs,
            }
        };
        self.groups.push(group);
        assert(self.queue@.len() == self.queue.len());
        self.asked = self.asked + 1;
        self.heard = Ghost(was.heard@.push(given));
        proof {
            let n = self.starred.songs@.len();
            assert(self.groups@.drop_last() =~= was.groups@);
            assert forall|i: int| 0 <= i < n implies is_song_group(
                #[trigger] self.groups@[i],
                self.starred.songs@[i],
            ) by {
                assert(self.groups@[i] == was.groups@[i]);
            }
            assert forall|i: int| 0 <= i < self.asked implies is_album_group(
                #[trigger] self.groups@[n + i],
                self.queue@[i],
                self.heard@[i],
            ) by {
                if i < was.asked {
                    assert(self.groups@[n + i] == was.groups@[n + i]);
                    assert(self.heard@[i] == was.heard@[i]);
                }
            }
        }
    }

    /// Takes the albums of the artist that was asked for: the newest of them are wanted, each
    /// as a group of its own, so a large catalogue gives way album by album.
    pub fn heard_artist(&mut self, albums: Vec<Album>)
        requires
            old(self).wf(),
            old(self).asked == old(self).queue@.len(),
            old(self).artists < old(self).starred.artists@.len(),
        ensures
            final(self).wf(),
            final(self).starred == old(self).starred,
            final(self).groups == old(self).groups,
            final(self).asked == old(self).asked,
            final(self).heard == old(self).heard,
            final(self).artists == old(self).artists + 1,
            final(self).listed@ == old(self).listed@.push(newest(albums@)),
    {
        let ghost was = *self;
        let ghost given = albums@;
        let mut sorted: Vec<Album> = albums;
        sort_albums_newest_first(&mut sorted);
        let count: usize = if sorted.len() > ARTIST_ALBUM_CAP {
            ARTIST_ALBUM_CAP
        } else {
            sorted.len()
        };
        let ghost taken = newest(given);
        assert(taken =~= sorted@.take(count as int));
        let ghost base = self.queue@.len();
        let ghost artist = self.starred.artists@[self.artists as int];
        for i in 0..count
            invariant
                count <= sorted@.len(),
                taken == sorted@.take(count as int),
                was.wf(),
                was.artists < was.starred.artists@.len(),
                artist == was.starred.artists@[was.artists as int],
                self.starred == was.starred,
                self.groups == was.groups,
                self.asked == was.asked,
                self.artists == was.artists,
                self.listed == was.listed,
                self.heard == was.heard,
                base == was.queue@.len(),
                self.queue@.len() == base + i,
                forall|j: int| 0 <= j < base ==> self.queue@[j] == was.queue@[j],
                forall|j: int|
                    0 <= j < i ==> wants(
                        self.queue@[base + j],
                        #[trigger] taken[j],
                        by_artist(artist, taken[j]),
                        PinTier::Artist,
                    ),
        {
            let a: &Album = &sorted[i];
            assert(*a == taken[i as int]);
            let mut name: String = self.starred.artists[self.artists].name.clone();
            name.append(" - ");
            name.append(a.name.as_str());
            assert(name@ =~= by_artist(artist, *a));
            let ghost before_push = self.queue@;
            self.queue.push(Wanted { album: a.clone(), name, tier: PinTier::Artist });
            assert forall|j: int| 0 <= j < i + 1 implies wants(
                self.queue@[base + j],
                #[trigger] taken[j],
                by_artist(artist, taken[j]),
                PinTier::Artist,
            ) by {
                if j < i {
                    assert(self.queue@[base + j] == before_push[base + j]);
                }
            }
        }
        assert(self.starred.artists@.len() == self.starred.artists.len());
        self.artists = self.artists + 1;
        self.listed = Ghost(was.listed@.push(taken));
        proof {
            let listed = self.listed@;
            let n = was.listed@.len() as int;
            listings_add_up(was.listed@, listed, n);
            assert(listed_upto(listed, n + 1) == listed_upto(listed, n) + taken.len());
            assert forall|a: int, i: int|
                0 <= a < listed.len() && 0 <= i < listed[a].len() implies wants(
                self.queue@[self.starred.albums@.len() + listed_upto(listed, a) + i],
                #[trigger] listed[a][i],
                by_artist(self.starred.artists@[a], listed[a][i]),
                PinTier::Artist,
            ) by {
                if a < n {
                    listings_add_up(was.listed@, listed, a);
                    assert(listed[a] == was.listed@[a]);
                    assert(was.listed@[a][i] == listed[a][i]);
                    listings_grow(was.listed@, a + 1, n);
                } else {
                    assert(listed[a] == taken);
                    assert(taken[i] == listed[a][i]);
                }
            }
            assert forall|i: int| 0 <= i < self.starred.albums@.len() implies wants(
                #[trigger] self.queue@[i],
                self.starred.albums@[i],
                self.starred.albums@[i].name@,
                PinTier::Album,
            ) by {
                assert(self.queue@[i] == was.queue@[i]);
            }
            let m = self.starred.songs@.len();
            assert forall|i: int| 0 <= i < self.asked implies is_album_group(
                #[trigger] self.groups@[m + i],
                self.queue@[i],
                self.heard@[i],
            ) by {
                assert(self.queue@[i] == was.queue@[i]);
            }
        }
    }

    /// The complete pin set.
    pub fn finish(self) -> (r: PinSet)
        requires
            self.wf(),
            self.done(),
        ensures
            r.groups == self.groups,
    {
        PinSet { groups: self.groups }
    }
}

proof fn listings_add_up(a: Seq<Seq<Album>>, b: Seq<Seq<Album>>, n: int)
    requires
        0 <= n <= a.len() <= b.len(),
        forall|i: int| 0 <= i < a.len() ==> a[i] == b[i],
    ensures
        listed_upto(a, n) == listed_upto(b, n),
    decreases n,
{
    if n > 0 {
        listings_add_up(a, b, n - 1);
    }
}

proof fn listings_grow(listed: Seq<Seq<Album>>, m: int, n: int)
    requires
        m <= n,
    ensures
        listed_upto(listed, m) <= listed_upto(listed, n),
    decreases n - m,
{
    if m < n {
        listings_grow(listed, m, n - 1);
    }
}

/// Once nothing is left to ask, the groups are, in this order: one per starred song, one per
/// starred album under its own name, and, artist by artist, one per album taken of them; each
/// album's with exactly the tracks that were heard of it.
pub proof fn walks_expand_everything(w: PinWalk)
    requires
        w.wf(),
        w.done(),
    ensures
        w.groups@.len() == w.starred.songs@.len() + w.starred.albums@.len() + listed_upto(
            w.listed@,
            w.starred.artists@.len() as int,
        ),
        forall|i: int|
            0 <= i < w.starred.songs@.len() ==> is_song_group(
                #[trigger] w.groups@[i],
                w.starred.songs@[i],
            ),
        forall|i: int|
            0 <= i < w.starred.albums@.len() ==> {
                let g = w.groups@[w.starred.songs@.len() + i];
                let a = #[trigger] w.starred.albums@[i];
                g.kind == PinKind::Album && g.id == a.id.0 && g.name@ == a.name@ && g.tier
                    == PinTier::Album && g.songs@ == w.heard@[i]
            },
        forall|a: int, i: int|
            0 <= a < w.starred.artists@.len() && 0 <= i < w.listed@[a].len() ==> {
                let g = w.groups@[w.starred.songs@.len() + w.starred.albums@.len() + listed_upto(
                    w.listed@,
                    a,
                ) + i];
                let album = #[trigger] w.listed@[a][i];
                g.kind == PinKind::Album && g.id == album.id.0 && g.name@ == by_artist(
                    w.starred.artists@[a],
                    album,
                ) && g.tier == PinTier::Artist && g.songs@ == w.heard@[w.starred.albums@.len()
                    + listed_upto(w.listed@, a) + i]
            },
{
    let m = w.starred.songs@.len();
    let n = w.starred.albums@.len();
    assert forall|i: int| 0 <= i < n implies {
        let g = w.groups@[m + i];
        let a = #[trigger] w.starred.albums@[i];
        g.kind == PinKind::Album && g.id == a.id.0 && g.name@ == a.name@ && g.tier == PinTier::Album
            && g.songs@ == w.heard@[i]
    } by {
        assert(wants(w.queue@[i], w.starred.albums@[i], w.starred.albums@[i].name@, PinTier::Album));
        assert(is_album_group(w.groups@[m + i], w.queue@[i], w.heard@[i]));
    }
    assert forall|a: int, i: int|
        0 <= a < w.starred.artists@.len() && 0 <= i < w.listed@[a].len() implies {
        let g = w.groups@[m + n + listed_upto(w.listed@, a) + i];
        let album = #[trigger] w.listed@[a][i];
        g.kind == PinKind::Album && g.id == album.id.0 && g.name@ == by_artist(
            w.starred.artists@[a],
            album,
        ) && g.tier == PinTier::Artist && g.songs@ == w.heard@[n + listed_upto(w.listed@, a) + i]
    } by {
        let at = n + listed_upto(w.listed@, a) + i;
        listings_grow(w.listed@, a + 1, w.listed@.len() as int);
        assert(at < w.queue@.len());
        assert(wants(
            w.queue@[at],
            w.listed@[a][i],
            by_artist(w.starred.artists@[a], w.listed@[a][i]),
            PinTier::Artist,
        ));
        assert(is_album_group(w.groups@[m + at], w.queue@[at], w.heard@[at]));
    }
}

/// What was asked for stays fresh for its time from the moment it was, and not a moment longer;
/// one from the future is fresh.
pub proof fn freshness_runs_out(at: u64, now: u64, ttl: u64)
    ensures
        recent(at, now, ttl) <==> now < at + ttl,
{
}

/// Albums go by when they were added, the latest text first and those that do not say last;
/// among equals by year, the latest first and those without one last; among those by id, the
/// smaller first.
pub proof fn albums_go_by_date_year_and_id(a: Album, b: Album)
    ensures
        a.created is Some && b.created is Some && before(b.created->0@, a.created->0@) ==> newer(
            a,
            b,
        ),
        a.created is Some && a.created->0@.len() > 0 && b.created is None ==> newer(a, b),
        a.created == b.created && a.year is Some && b.year is Some && a.year->0 > b.year->0
            ==> newer(a, b),
        a.created == b.created && a.year is Some && a.year->0 > 0 && b.year is None ==> newer(a, b),
        a.created == b.created && a.year == b.year && before(a.id@, b.id@) ==> newer(a, b),
        newer(a, b) ==> !newer(b, a),
{
    newest_order_is_strict(a, b, a);
}

/// Of an artist's albums the newest are taken, up to the cap: all of them where there are no
/// more, and else none that was left out is newer than one that was taken.
pub proof fn the_newest_are_taken(albums: Seq<Album>, i: int, j: int)
    requires
        albums.len() <= usize::MAX,
    ensures
        albums.len() <= ARTIST_ALBUM_CAP ==> newest(albums) == newest_first(albums),
        albums.len() > ARTIST_ALBUM_CAP ==> newest(albums).len() == ARTIST_ALBUM_CAP,
        0 <= i < newest(albums).len() ==> newest(albums)[i] == newest_first(albums)[i],
        0 <= i < newest(albums).len() && newest(albums).len() <= j < albums.len() ==> !newer(
            newest_first(albums)[j],
            newest(albums)[i],
        ),
{
    sorted_albums_are_newest_first(albums);
}

/// Only a failure leaves open what a listing holds: what was found is that, however little, and
/// what is gone is nothing.
pub proof fn only_failures_are_open<T>(found: Vec<T>, why: String)
    ensures
        said(Reply::Found(found)) == Some(found@),
        said::<T>(Reply::Gone) == Some(Seq::<T>::empty()),
        said::<T>(Reply::Failed(why)) is None,
{
}

/// A group that came of an album stands under the album's id and the name and gesture it was
/// wanted under, with the tracks that were heard of it.
pub proof fn albums_stand_under_their_gesture(
    g: PinGroup,
    w: Wanted,
    songs: Seq<Song>,
    album: Album,
    name: Seq<char>,
    tier: PinTier,
)
    requires
        is_album_group(g, w, songs),
        wants(w, album, name, tier),
    ensures
        g.kind == PinKind::Album,
        g.id == album.id.0,
        g.name@ == name,
        g.tier == tier,
        g.songs@ == songs,
{
}

} // verus!
