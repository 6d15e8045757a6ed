//! The library's catalogue types, as the server reports them.
use crate::text::copy_opt;
use crate::time::{instant, parse_rfc3339_epoch};
use vstd::prelude::*;

verus! {

/// A song's id on the server.
#[derive(Debug, PartialEq, Eq, Hash)]
pub struct SongId(pub String);

/// An album's id on the server.
#[derive(Debug, PartialEq, Eq, Hash)]
pub struct AlbumId(pub String);

/// An artist's id on the server.
#[derive(Debug, PartialEq, Eq, Hash)]
pub struct ArtistId(pub String);

impl View for SongId {
    type V = Seq<char>;

    open spec fn view(&self) -> Seq<char> {
        self.0@
    }
}

impl View for AlbumId {
    type V = Seq<char>;

    open spec fn view(&self) -> Seq<char> {
        self.0@
    }
}

impl View for ArtistId {
    type V = Seq<char>;

    open spec fn view(&self) -> Seq<char> {
        self.0@
    }
}

impl Clone for SongId {
    fn clone(&self) -> (r: Self)
        ensures
            r == *self,
    {
        SongId(self.0.clone())
    }
}

impl Clone for AlbumId {
    fn clone(&self) -> (r: Self)
        ensures
            r == *self,
    {
        AlbumId(self.0.clone())
    }
}

impl Clone for ArtistId {
    fn clone(&self) -> (r: Self)
        ensures
            r == *self,
    {
        ArtistId(self.0.clone())
    }
}

/// One track, with everything the server reports of it.
#[derive(Debug, PartialEq)]
pub struct Song {
    pub id: SongId,
    pub title: String,
    pub album: Option<String>,
    pub album_id: Option<AlbumId>,
    pub artist: Option<String>,
    pub track: Option<u32>,
    pub duration_secs: Option<u32>,
    pub cover_art: Option<String>,
    pub starred: bool,
    pub musicbrainz_id: Option<String>,
    pub disc: Option<u32>,
    pub year: Option<u32>,
    pub genre: Option<String>,
    pub bitrate: Option<u32>,
    pub comment: Option<String>,
    pub user_rating: Option<u32>,
    pub composer: Option<String>,
    pub performer: Option<String>,
    /// Exact byte length of the original.
    pub size: Option<u64>,
    pub suffix: Option<String>,
    pub content_type: Option<String>,
    pub created: Option<String>,
    pub play_count: Option<u32>,
    /// The last play, as a timestamp. The server sends none where there is no play record.
    pub played: Option<String>,
}

impl Clone for Song {
    fn clone(&self) -> (r: Self)
        ensures
            r == *self,
    {
        Song {
            id: self.id.clone(),
            title: self.title.clone(),
            album: copy_opt(&self.album),
            album_id: match &self.album_id {
                Some(a) => Some(a.clone()),
                None => None,
            },
            artist: copy_opt(&self.artist),
            track: self.track,
            duration_secs: self.duration_secs,
            cover_art: copy_opt(&self.cover_art),
            starred: self.starred,
            musicbrainz_id: copy_opt(&self.musicbrainz_id),
            disc: self.disc,
            year: self.year,
            genre: copy_opt(&self.genre),
            bitrate: self.bitrate,
            comment: copy_opt(&self.comment),
            user_rating: self.user_rating,
            composer: copy_opt(&self.composer),
            performer: copy_opt(&self.performer),
            size: self.size,
            suffix: copy_opt(&self.suffix),
            content_type: copy_opt(&self.content_type),
            created: copy_opt(&self.created),
            play_count: self.play_count,
            played: copy_opt(&self.played),
        }
    }
}

/// Whole days between an instant and now; none have passed where it is still to come.
pub open spec fn days_since(at: int, now_unix: u64) -> int {
    let secs = if now_unix >= at { now_unix - at } else { 0 };
    if secs / 86400 <= u32::MAX { secs / 86400 } else { u32::MAX as int }
}

/// Age of a track's last play in whole days, where its record can be read.
pub open spec fn played_age(s: Song, now_unix: u64) -> Option<int> {
    match s.played {
        None => None,
        Some(p) => match instant(p@) {
            None => None,
            Some(at) => Some(days_since(at, now_unix)),
        },
    }
}

impl Song {
    /// How many whole days ago this track was last played. `None` where there is no play
    /// record, or none that can be read.
    pub fn played_days_ago(&self, now_unix: u64) -> (r: Option<u32>)
        ensures
            r is Some <==> played_age(*self, now_unix) is Some,
            r is Some ==> r->0 == played_age(*self, now_unix)->0,
    {
        match &self.played {
            None => None,
            Some(p) => match parse_rfc3339_epoch(p.as_str()) {
                None => None,
                Some(at) => {
                    let now: i128 = now_unix as i128;
                    let then: i128 = at as i128;
                    let secs: i128 = if now >= then {
                        now - then
                    } else {
                        0
                    };
                    let days: i128 = secs / 86400;
                    if days <= 4_294_967_295 {
                        Some(days as u32)
                    } else {
                        Some(4_294_967_295)
                    }
                },
            },
        }
    }
}

/// Absent a new play, the age of the last one never falls.
pub proof fn ages_only_grow(s: Song, now: u64, later: u64)
    requires
        now <= later,
    ensures
        played_age(s, now) is Some <==> played_age(s, later) is Some,
        played_age(s, now) is Some ==> played_age(s, now)->0 <= played_age(s, later)->0,
{
}

/// One album, as a listing names it.
#[derive(Debug, PartialEq)]
pub struct Album {
    pub id: AlbumId,
    pub name: String,
    pub artist: String,
    pub artist_id: Option<ArtistId>,
    pub year: Option<u32>,
    pub genre: Option<String>,
    pub cover_art: Option<String>,
    pub song_count: u32,
    pub created: Option<String>,
}

impl Clone for Album {
    fn clone(&self) -> (r: Self)
        ensures
            r == *self,
    {
        Album {
            id: self.id.clone(),
            name: self.name.clone(),
            artist: self.artist.clone(),
            artist_id: match &self.artist_id {
                Some(a) => Some(a.clone()),
                None => None,
            },
            year: self.year,
            genre: copy_opt(&self.genre),
            cover_art: copy_opt(&self.cover_art),
            song_count: self.song_count,
            created: copy_opt(&self.created),
        }
    }
}

/// One artist, as a listing names it.
#[derive(Debug, PartialEq)]
pub struct Artist {
    pub id: ArtistId,
    pub name: String,
    pub album_count: u32,
    pub starred: bool,
    pub cover_art: Option<String>,
}

/// Everything the user has starred.
#[derive(Debug, PartialEq)]
pub struct Starred {
    pub songs: Vec<Song>,
    pub albums: Vec<Album>,
    pub artists: Vec<Artist>,
}

/// An age is the number of whole days that have passed since the last play, as far as it can be
/// counted, and depends on nothing but that play and now. A play that is still to come is of
/// today, and no play, or one whose date cannot be read, has no age.
pub proof fn ages_count_whole_days(s: Song, now_unix: u64)
    ensures
        s.played is None ==> played_age(s, now_unix) is None,
        s.played is Some ==> (played_age(s, now_unix) is Some <==> instant(s.played->0@) is Some),
        played_age(s, now_unix) matches Some(d) ==> {
            let at = instant(s.played->0@)->0;
            &&& 0 <= d <= u32::MAX
            &&& at > now_unix ==> d == 0
            &&& at <= now_unix ==> 86400 * d <= now_unix - at
            &&& at <= now_unix && d < u32::MAX ==> now_unix - at < 86400 * (d + 1)
        },
{
}

} // verus!
