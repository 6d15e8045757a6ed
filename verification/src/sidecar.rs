//! The sidecar: the record whose appearance on disk commits a cached song.
use crate::model::Song;
use crate::names::{is_storable_id, sanitize_suffix, sanitized, storable, usable_suffix};
use crate::text::{copy_opt, same};
use vstd::prelude::*;

verus! {

/// Version of the sidecar's schema. Any other is corrupt.
pub const STORE_SCHEMA_VERSION: u32 = 1;

/// The only endpoint whose bytes are stored.
pub const ENDPOINT_DOWNLOAD: &'static str = "download";

/// The identity of the bytes on disk, as the server reported it at download time.
#[derive(Debug, PartialEq, Eq)]
pub struct Fingerprint {
    /// Exact byte length of the original.
    pub size: u64,
    /// Sanitized suffix, the audio file's extension.
    pub suffix: String,
    /// The server's `created` timestamp, where it reported one.
    pub created: Option<String>,
}

/// The commit record of one song.
#[derive(Debug, PartialEq)]
pub struct Sidecar {
    pub schema_version: u32,
    /// Where the bytes came from.
    pub endpoint: String,
    pub content_type: Option<String>,
    /// Whether the song is in the pin set.
    pub pinned: bool,
    /// Whether the original was found to have changed. A stale entry keeps serving.
    pub stale: bool,
    /// When the bytes were committed, in epoch seconds.
    pub fetched_at_unix: u64,
    /// When they were last resolved for play, in epoch seconds.
    pub last_played_unix: u64,
    pub fingerprint: Fingerprint,
    /// The whole song, for use while the server is away.
    pub song: Song,
}

impl Clone for Fingerprint {
    fn clone(&self) -> (r: Self)
        ensures
            r == *self,
    {
        Fingerprint {
            size: self.size,
            suffix: self.suffix.clone(),
            created: copy_opt(&self.created),
        }
    }
}

impl Clone for Sidecar {
    fn clone(&self) -> (r: Self)
        ensures
            r == *self,
    {
        Sidecar {
            schema_version: self.schema_version,
            endpoint: self.endpoint.clone(),
            content_type: copy_opt(&self.content_type),
            pinned: self.pinned,
            stale: self.stale,
            fetched_at_unix: self.fetched_at_unix,
            last_played_unix: self.last_played_unix,
            fingerprint: self.fingerprint.clone(),
            song: self.song.clone(),
        }
    }
}

/// A sidecar that may be trusted: of this schema, of originals, for a storable id, of bytes
/// that exist, with a suffix that is already sanitized.
pub open spec fn sound_sidecar(s: Sidecar) -> bool {
    &&& s.schema_version == STORE_SCHEMA_VERSION
    &&& s.endpoint@ == ENDPOINT_DOWNLOAD@
    &&& storable(s.song.id@)
    &&& s.fingerprint.size > 0
    &&& sanitized(Some(s.fingerprint.suffix@)) == s.fingerprint.suffix@
}

/// Whether a sidecar passes every gate.
pub fn is_sound(s: &Sidecar) -> (r: bool)
    ensures
        r == sound_sidecar(*s),
{
    if s.schema_version != STORE_SCHEMA_VERSION || !same(s.endpoint.as_str(), ENDPOINT_DOWNLOAD) {
        return false;
    }
    if !is_storable_id(s.song.id.0.as_str()) || s.fingerprint.size == 0 {
        return false;
    }
    let sane: String = sanitize_suffix(Some(s.fingerprint.suffix.as_str()));
    sane == s.fingerprint.suffix
}

/// What is left of a parsed sidecar after the gates: all of it, or nothing. `None` stands for
/// text that did not parse.
pub fn sidecar_from_toml(parsed: Option<Sidecar>) -> (r: Option<Sidecar>)
    ensures
        r == (match parsed {
            Some(s) if sound_sidecar(s) => Some(s),
            _ => None,
        }),
{
    match parsed {
        Some(s) => {
            if is_sound(&s) {
                Some(s)
            } else {
                None
            }
        },
        None => None,
    }
}

/// The record of a fresh commit of a song, of this size and suffix.
pub open spec fn fresh_sidecar(s: Sidecar, song: Song, size: u64, pinned: bool, now_unix: u64) -> bool {
    &&& s.schema_version == STORE_SCHEMA_VERSION
    &&& s.endpoint@ == ENDPOINT_DOWNLOAD@
    &&& s.content_type == song.content_type
    &&& s.pinned == pinned
    &&& !s.stale
    &&& s.fetched_at_unix == now_unix
    &&& s.last_played_unix == now_unix
    &&& s.fingerprint.size == size
    &&& s.fingerprint.suffix@ == sanitized(
        match song.suffix {
            Some(x) => Some(x@),
            None => None,
        },
    )
    &&& s.fingerprint.created == song.created
    &&& s.song == song
}

/// Writes the record of a fresh commit.
pub fn sidecar_for(song: &Song, size: u64, pinned: bool, now_unix: u64) -> (r: Sidecar)
    ensures
        fresh_sidecar(r, *song, size, pinned, now_unix),
{
    let suffix: String = match &song.suffix {
        Some(s) => sanitize_suffix(Some(s.as_str())),
        None => sanitize_suffix(None),
    };
    Sidecar {
        schema_version: STORE_SCHEMA_VERSION,
        endpoint: ENDPOINT_DOWNLOAD.to_owned(),
        content_type: copy_opt(&song.content_type),
        pinned,
        stale: false,
        fetched_at_unix: now_unix,
        last_played_unix: now_unix,
        fingerprint: Fingerprint { size, suffix, created: copy_opt(&song.created) },
        song: song.clone(),
    }
}

/// What a commit writes, a later read trusts.
pub proof fn fresh_sidecars_are_sound(
    s: Sidecar,
    song: Song,
    size: u64,
    pinned: bool,
    now_unix: u64,
)
    requires
        fresh_sidecar(s, song, size, pinned, now_unix),
        storable(song.id@),
        size > 0,
    ensures
        sound_sidecar(s),
        usable_suffix(s.fingerprint.suffix@),
{
    crate::names::sanitizing_is_idempotent(
        match song.suffix {
            Some(x) => Some(x@),
            None => None,
        },
    );
}

/// One change to a committed record.
#[derive(Clone, Copy, Debug, PartialEq, Eq, Structural)]
pub enum SidecarChange {
    Pinned(bool),
    Stale(bool),
    LastPlayed(u64),
}

/// A record with one field changed.
pub open spec fn changed(s: Sidecar, c: SidecarChange) -> Sidecar {
    match c {
        SidecarChange::Pinned(b) => Sidecar { pinned: b, ..s },
        SidecarChange::Stale(b) => Sidecar { stale: b, ..s },
        SidecarChange::LastPlayed(t) => Sidecar { last_played_unix: t, ..s },
    }
}

/// Changes one field of a record, where there is a valid one to change.
pub fn mutate_sidecar(current: Option<Sidecar>, c: SidecarChange) -> (r: Option<Sidecar>)
    ensures
        r == (match current {
            Some(s) => Some(changed(s, c)),
            None => None,
        }),
{
    match current {
        Some(s) => {
            let mut s: Sidecar = s;
            match c {
                SidecarChange::Pinned(b) => {
                    s.pinned = b;
                },
                SidecarChange::Stale(b) => {
                    s.stale = b;
                },
                SidecarChange::LastPlayed(t) => {
                    s.last_played_unix = t;
                },
            }
            Some(s)
        },
        None => None,
    }
}

/// Bookkeeping never touches what makes a record trustworthy.
pub proof fn changes_keep_sidecars_sound(s: Sidecar, c: SidecarChange)
    requires
        sound_sidecar(s),
    ensures
        sound_sidecar(changed(s, c)),
        changed(s, c).fingerprint == s.fingerprint,
        changed(s, c).song == s.song,
{
}

} // verus!
