//! The store as the daemon holds it: an index of what is committed on disk, the queue window,
//! and the switches that the reconciler reads.
//!
//! The disk is the truth. Each operation that touches it comes in two halves: one that says
//! what to write or unlink, and one that takes the outcome into the index.
use crate::budget::capped;
use crate::commit::{commits, refusal, Commit, StoreError};
use crate::config::StoreConfig;
use crate::entries::{distinct_entries, entry_bytes, entry_with, find_entry, IndexEntry};
use crate::index::{agree, ascending, drop_entry, get_entry, put_entry, rebound, sorted_entries};
use crate::model::{Song, SongId};
use crate::names::{is_storable_id, storable};
use crate::paths::{dot, dotted, join, joined, tmp_file, tmp_file_name};
use crate::plan::copy_ids;
use crate::planner::total_bytes_of;
use crate::removal::{is_gone, remove_audio, removes, AudioRemoval, Unlink};
use crate::scan::AudioFile;
use crate::sidecar::{sidecar_for, Sidecar, SidecarChange};
use crate::status::StoreStatus;
use crate::text::copy_opt;
use vstd::prelude::*;

verus! {

/// The store.
#[derive(Debug)]
pub struct AudioStore {
    pub root: String,
    pub cfg: StoreConfig,
    pub index: Vec<IndexEntry>,
    /// The current song and the next ones, in play order.
    pub window: Vec<SongId>,
    /// Ids that must not be evicted, each once.
    pub protected: Vec<SongId>,
    /// A full pass was asked for.
    pub full_requested: bool,
    /// The deck plays off the network.
    pub playback_remote: bool,
    /// Bulk work is suspended by hand.
    pub paused: bool,
    /// What the last judging pass said of the store.
    pub status: StoreStatus,
}

/// Whether a list names an id.
pub open spec fn lists_id(ids: Seq<SongId>, id: Seq<char>) -> bool {
    exists|k: int| 0 <= k < ids.len() && (#[trigger] ids[k])@ == id
}

/// No id is named twice.
pub open spec fn distinct_ids(ids: Seq<SongId>) -> bool {
    forall|i: int, j: int| 0 <= i < j < ids.len() ==> (#[trigger] ids[i])@ != (#[trigger] ids[j])@
}

/// The ids that a list names, in order.
pub open spec fn named(ids: Seq<SongId>) -> Seq<Seq<char>> {
    Seq::new(ids.len(), |k: int| ids[k]@)
}

/// A scanned entry with the flags that only memory knows: the suspicion stays, and so does a
/// recency that was not written out yet and is no older than the one on disk.
pub open spec fn carried(e: IndexEntry, was: Seq<IndexEntry>) -> IndexEntry {
    match entry_with(was, e.id@) {
        None => e,
        Some(o) => if o.recency_dirty && o.last_played_unix >= e.last_played_unix {
            IndexEntry {
                suspect: o.suspect,
                last_played_unix: o.last_played_unix,
                recency_dirty: true,
                ..e
            }
        } else {
            IndexEntry { suspect: o.suspect, ..e }
        },
    }
}

/// The same, where there is an entry.
pub open spec fn carried_opt(e: Option<IndexEntry>, was: Seq<IndexEntry>) -> Option<IndexEntry> {
    match e {
        Some(e) => Some(carried(e, was)),
        None => None,
    }
}

/// The entry that a commit makes.
pub open spec fn entry_of_commit(e: IndexEntry, s: Sidecar) -> bool {
    &&& e.id == s.song.id
    &&& e.suffix == s.fingerprint.suffix
    &&& e.size == s.fingerprint.size
    &&& e.created == s.fingerprint.created
    &&& e.pinned == s.pinned
    &&& !e.stale
    &&& !e.suspect
    &&& e.last_played_unix == s.last_played_unix
    &&& !e.recency_dirty
}

/// An entry with one field of its record changed. A recency that is written out is clean,
/// unless it moved meanwhile.
pub open spec fn mirrored(e: IndexEntry, c: SidecarChange) -> IndexEntry {
    match c {
        SidecarChange::Pinned(b) => IndexEntry { pinned: b, ..e },
        SidecarChange::Stale(b) => IndexEntry { stale: b, ..e },
        SidecarChange::LastPlayed(t) => if e.last_played_unix == t {
            IndexEntry { recency_dirty: false, ..e }
        } else {
            e
        },
    }
}

/// Whether an entry's bytes are played from what was found at its path.
pub open spec fn offers(e: Option<IndexEntry>, audio: AudioFile) -> bool {
    e is Some && !e->0.suspect && audio == AudioFile::Plain(e->0.size)
}

/// An entry that was just played.
pub open spec fn heard(e: IndexEntry, now_unix: u64) -> IndexEntry {
    IndexEntry { last_played_unix: now_unix, recency_dirty: true, ..e }
}

/// An entry whose bytes failed to play.
pub open spec fn distrusted(e: IndexEntry) -> IndexEntry {
    IndexEntry { suspect: true, ..e }
}

/// Everything of two stores but the index is the same.
pub open spec fn same_but_index(a: AudioStore, b: AudioStore) -> bool {
    &&& a.root == b.root
    &&& a.cfg == b.cfg
    &&& a.window == b.window
    &&& a.protected == b.protected
    &&& a.full_requested == b.full_requested
    &&& a.playback_remote == b.playback_remote
    &&& a.paused == b.paused
    &&& a.status == b.status
}

/// The position of an id in a list.
fn find_id(ids: &Vec<SongId>, id: &SongId) -> (r: Option<usize>)
    ensures
        r is Some <==> lists_id(ids@, id@),
        r is Some ==> r->0 < ids@.len() && ids@[r->0 as int]@ == id@,
{
    for k in 0..ids.len()
        invariant
            forall|j: int| 0 <= j < k ==> (#[trigger] ids@[j])@ != id@,
    {
        if ids[k].0 == id.0 {
            return Some(k);
        }
    }
    None
}

/// Whether two lists name the same ids in the same order.
fn same_ids(a: &Vec<SongId>, b: &Vec<SongId>) -> (r: bool)
    ensures
        r == (named(a@) == named(b@)),
{
    if a.len() != b.len() {
        assert(named(a@).len() != named(b@).len());
        return false;
    }
    for k in 0..a.len()
        invariant
            a@.len() == b@.len(),
            forall|j: int| 0 <= j < k ==> (#[trigger] a@[j])@ == b@[j]@,
    {
        if !(a[k].0 == b[k].0) {
            assert(named(a@)[k as int] != named(b@)[k as int]);
            return false;
        }
    }
    assert(named(a@) =~= named(b@));
    true
}

impl AudioStore {
    /// One entry per id, and each protected id once.
    pub open spec fn wf(self) -> bool {
        distinct_entries(self.index@) && distinct_ids(self.protected@)
    }

    /// The entry of an id.
    pub open spec fn entry(self, id: Seq<char>) -> Option<IndexEntry> {
        entry_with(self.index@, id)
    }

    /// Opens the store over what a scan of its directory found valid. Nothing is playing yet,
    /// nothing is paused and nothing is known.
    pub fn open(root: String, cfg: StoreConfig, scanned: &Vec<IndexEntry>) -> (r: AudioStore)
        ensures
            r.wf(),
            r.root == root,
            r.cfg == cfg,
            agree(r.index@, scanned@),
            r.window@.len() == 0,
            r.protected@.len() == 0,
            !r.full_requested,
            !r.playback_remote,
            !r.paused,
            r.status.is_blank(),
    {
        let mut index: Vec<IndexEntry> = Vec::new();
        for i in 0..scanned.len()
            invariant
                distinct_entries(index@),
                agree(index@, scanned@.take(i as int)),
        {
            let ghost was = index@;
            put_entry(&mut index, scanned[i].clone());
            proof {
                let e = scanned@[i as int];
                let upto = scanned@.take(i + 1);
                assert(upto.drop_last() =~= scanned@.take(i as int));
                assert forall|id: Seq<char>| #[trigger] entry_with(index@, id) == entry_with(
                    upto,
                    id,
                ) by {
                    assert(entry_with(was, id) == entry_with(scanned@.take(i as int), id));
                }
            }
        }
        assert(scanned@.take(scanned@.len() as int) =~= scanned@);
        AudioStore {
            root,
            cfg,
            index,
            window: Vec::new(),
            protected: Vec::new(),
            full_requested: false,
            playback_remote: false,
            paused: false,
            status: StoreStatus::default(),
        }
    }

    /// The store's directory.
    pub fn root(&self) -> (r: &str)
        ensures
            r@ == self.root@,
    {
        self.root.as_str()
    }

    /// The store's knobs.
    pub fn config(&self) -> (r: &StoreConfig)
        ensures
            *r == self.cfg,
    {
        &self.cfg
    }

    /// The audio file of an id, under a sanitized suffix.
    pub fn audio_path(&self, id: &SongId, suffix: &str) -> (r: String)
        ensures
            r@ == joined(self.root@, dotted(id@, suffix@)),
    {
        let name: String = dot(id.0.as_str(), suffix);
        join(self.root.as_str(), name.as_str())
    }

    /// The sidecar of an id.
    pub fn sidecar_path(&self, id: &SongId) -> (r: String)
        ensures
            r@ == joined(self.root@, dotted(id@, "toml"@)),
    {
        let name: String = dot(id.0.as_str(), "toml");
        join(self.root.as_str(), name.as_str())
    }

    /// A temporary in the store's directory, so that the rename that commits it is atomic.
    pub fn tmp_path(&self, pid: u32, seq: u64) -> (r: String)
        ensures
            r@ == joined(self.root@, tmp_file(pid as nat, seq as nat)),
    {
        let name: String = tmp_file_name(pid, seq);
        join(self.root.as_str(), name.as_str())
    }

    /// The file that would be played for an id, before anyone has looked whether it is there:
    /// none for an id without an entry, and none for one whose bytes are suspect.
    pub fn candidate(&self, id: &SongId) -> (r: Option<String>)
        ensures
            r is Some <==> self.entry(id@) is Some && !self.entry(id@)->0.suspect,
            r is Some ==> r->0@ == joined(
                self.root@,
                dotted(id@, self.entry(id@)->0.suffix@),
            ),
    {
        match get_entry(&self.index, id) {
            Some(e) => {
                if e.suspect {
                    None
                } else {
                    Some(self.audio_path(id, e.suffix.as_str()))
                }
            },
            None => None,
        }
    }

    /// The local file to play, or none to fall through to a stream. `audio` is what was found
    /// at the candidate's path: only a plain file of exactly the recorded length will do.
    pub fn lookup(&self, id: &SongId, audio: AudioFile) -> (r: Option<String>)
        ensures
            r is Some <==> self.entry(id@) is Some && !self.entry(id@)->0.suspect && audio
                == AudioFile::Plain(self.entry(id@)->0.size),
            r is Some <==> offers(self.entry(id@), audio),
            r is Some ==> r->0@ == joined(
                self.root@,
                dotted(id@, self.entry(id@)->0.suffix@),
            ),
    {
        match get_entry(&self.index, id) {
            Some(e) => {
                if e.suspect {
                    return None;
                }
                match audio {
                    AudioFile::Plain(len) => {
                        if len == e.size {
                            Some(self.audio_path(id, e.suffix.as_str()))
                        } else {
                            None
                        }
                    },
                    _ => None,
                }
            },
            None => None,
        }
    }

    /// Notes that playback resolved to an id's local bytes. In memory only, until a full pass
    /// writes it out.
    pub fn note_played(&mut self, id: &SongId, now_unix: u64)
        requires
            old(self).wf(),
        ensures
            final(self).wf(),
            same_but_index(*final(self), *old(self)),
            rebound(
                final(self).index@,
                old(self).index@,
                id@,
                (match old(self).entry(id@) {
                    Some(e) => Some(
                        (IndexEntry { last_played_unix: now_unix, recency_dirty: true, ..e }),
                    ),
                    None => None,
                }),
            ),
            old(self).entry(id@) is Some ==> final(self).entry(id@) == Some(
                heard(old(self).entry(id@)->0, now_unix),
            ),
    {
        match get_entry(&self.index, id) {
            Some(e) => {
                let mut e: IndexEntry = e.clone();
                e.last_played_unix = now_unix;
                e.recency_dirty = true;
                put_entry(&mut self.index, e);
            },
            None => {},
        }
    }

    /// Stops offering an id's bytes, after a play of them failed. Deletes nothing. Says whether
    /// this changed anything.
    pub fn mark_suspect(&mut self, id: &SongId) -> (r: bool)
        requires
            old(self).wf(),
        ensures
            final(self).wf(),
            same_but_index(*final(self), *old(self)),
            r == (old(self).entry(id@) is Some && !old(self).entry(id@)->0.suspect),
            rebound(
                final(self).index@,
                old(self).index@,
                id@,
                (match old(self).entry(id@) {
                    Some(e) => Some((IndexEntry { suspect: true, ..e })),
                    None => None,
                }),
            ),
            old(self).entry(id@) is Some ==> final(self).entry(id@) == Some(
                distrusted(old(self).entry(id@)->0),
            ),
    {
        match get_entry(&self.index, id) {
            Some(e) => {
                if e.suspect {
                    return false;
                }
                let mut e: IndexEntry = e.clone();
                e.suspect = true;
                put_entry(&mut self.index, e);
                true
            },
            None => false,
        }
    }

    /// Replaces the queue window. Says whether it changed.
    pub fn set_window(&mut self, ids: Vec<SongId>) -> (r: bool)
        ensures
            r == (named(old(self).window@) != named(ids@)),
            named(final(self).window@) == named(ids@),
            final(self).index == old(self).index,
            final(self).protected == old(self).protected,
            final(self).full_requested == old(self).full_requested,
            final(self).playback_remote == old(self).playback_remote,
            final(self).paused == old(self).paused,
            final(self).root == old(self).root,
            final(self).cfg == old(self).cfg,
            final(self).status == old(self).status,
    {
        if same_ids(&self.window, &ids) {
            return false;
        }
        self.window = ids;
        true
    }

    /// The queue window.
    pub fn window(&self) -> (r: Vec<SongId>)
        ensures
            r@ == self.window@,
    {
        copy_ids(&self.window)
    }

    /// Keeps an id from eviction until it is unprotected.
    pub fn protect(&mut self, id: SongId)
        requires
            old(self).wf(),
        ensures
            final(self).wf(),
            forall|x: Seq<char>|
                #[trigger] lists_id(final(self).protected@, x) <==> lists_id(
                    old(self).protected@,
                    x,
                ) || x == id@,
            final(self).index == old(self).index,
            final(self).window == old(self).window,
            final(self).full_requested == old(self).full_requested,
            final(self).playback_remote == old(self).playback_remote,
            final(self).paused == old(self).paused,
            final(self).root == old(self).root,
            final(self).cfg == old(self).cfg,
            final(self).status == old(self).status,
    {
        let ghost was = self.protected@;
        if find_id(&self.protected, &id).is_none() {
            self.protected.push(id);
            proof {
                let now = self.protected@;
                assert forall|x: Seq<char>| #[trigger] lists_id(now, x) <==> lists_id(was, x) || x
                    == id@ by {
                    if lists_id(was, x) {
                        let k = choose|k: int| 0 <= k < was.len() && (#[trigger] was[k])@ == x;
                        assert(now[k]@ == x);
                    }
                    if x == id@ {
                        assert(now[was.len() as int]@ == x);
                    }
                    if lists_id(now, x) && x != id@ {
                        let k = choose|k: int| 0 <= k < now.len() && (#[trigger] now[k])@ == x;
                        assert(was[k]@ == x);
                    }
                }
                assert forall|i: int, j: int| 0 <= i < j < now.len() implies (
                #[trigger] now[i])@ != (#[trigger] now[j])@ by {
                    assert(was[i]@ == now[i]@);
                    if j < was.len() {
                        assert(was[i]@ != was[j]@);
                    }
                }
            }
        }
    }

    /// Lets an id go again.
    pub fn unprotect(&mut self, id: &SongId)
        requires
            old(self).wf(),
        ensures
            final(self).wf(),
            forall|x: Seq<char>|
                #[trigger] lists_id(final(self).protected@, x) <==> lists_id(
                    old(self).protected@,
                    x,
                ) && x != id@,
            final(self).index == old(self).index,
            final(self).window == old(self).window,
            final(self).full_requested == old(self).full_requested,
            final(self).playback_remote == old(self).playback_remote,
            final(self).paused == old(self).paused,
            final(self).root == old(self).root,
            final(self).cfg == old(self).cfg,
            final(self).status == old(self).status,
    {
        let ghost was = self.protected@;
        match find_id(&self.protected, id) {
            Some(at) => {
                self.protected.remove(at);
                proof {
                    let now = self.protected@;
                    removing_an_id(was, at as int);
                }
            },
            None => {},
        }
    }

    /// The protected ids.
    pub fn protected_ids(&self) -> (r: Vec<SongId>)
        ensures
            r@ == self.protected@,
    {
        copy_ids(&self.protected)
    }

    /// A snapshot of the index, in order of the ids.
    pub fn entries(&self) -> (r: Vec<IndexEntry>)
        requires
            self.wf(),
        ensures
            ascending(r@),
            distinct_entries(r@),
            agree(r@, self.index@),
            r@.len() == self.index@.len(),
    {
        sorted_entries(&self.index)
    }

    /// Stored audio bytes, as the index believes them and as far as 64 bits go.
    pub fn total_bytes(&self) -> (r: u64)
        ensures
            r == capped(entry_bytes(self.index@, self.index@.len() as int)),
    {
        total_bytes_of(&self.index)
    }

    /// The song that a sidecar carries, for an id that has an entry. `sidecar` is what its
    /// sidecar holds, where there is a valid one.
    pub fn cached_song(&self, id: &SongId, sidecar: Option<Sidecar>) -> (r: Option<Song>)
        ensures
            r == (match sidecar {
                Some(s) if self.entry(id@) is Some => Some(s.song),
                _ => None,
            }),
    {
        if find_entry(&self.index, &id.0).is_none() {
            return None;
        }
        match sidecar {
            Some(s) => Some(s.song),
            None => None,
        }
    }

    /// Where a sidecar is to be written; refused for an id that cannot be a key.
    pub fn write_sidecar(&self, sc: &Sidecar) -> (r: Result<String, StoreError>)
        ensures
            r is Ok <==> storable(sc.song.id@),
            r is Ok ==> r->Ok_0@ == joined(self.root@, dotted(sc.song.id@, "toml"@)),
            r is Err ==> r->Err_0 == StoreError::Unstorable,
    {
        if !is_storable_id(sc.song.id.0.as_str()) {
            return Err(StoreError::Unstorable);
        }
        Ok(self.sidecar_path(&sc.song.id))
    }

    /// What committing a downloaded original takes. `tmp_len` is the length of the downloaded
    /// file, where it could be looked at: it must be exactly what the server reported. Where
    /// this refuses, the index is untouched and an earlier entry keeps serving.
    pub fn commit(
        &self,
        song: &Song,
        tmp_len: Option<u64>,
        pinned: bool,
        now_unix: u64,
    ) -> (r: Result<Commit, StoreError>)
        ensures
            r is Err <==> refusal(*song, tmp_len) is Some,
            r is Err ==> Some(r->Err_0) == refusal(*song, tmp_len),
            r is Ok ==> commits(
                r->Ok_0,
                self.root@,
                self.entry(song.id@),
                *song,
                pinned,
                now_unix,
            ),
    {
        if !is_storable_id(song.id.0.as_str()) {
            return Err(StoreError::Unstorable);
        }
        let size: u64 = match song.size {
            Some(n) => n,
            None => 0,
        };
        if size == 0 {
            return Err(StoreError::NoSize);
        }
        let got: u64 = match tmp_len {
            Some(got) => got,
            None => {
                return Err(StoreError::Unreadable);
            },
        };
        if got != size {
            return Err(StoreError::WrongLength { got, expected: size });
        }
        let sidecar: Sidecar = sidecar_for(song, size, pinned, now_unix);
        let audio: String = self.audio_path(&song.id, sidecar.fingerprint.suffix.as_str());
        let superseded: Option<String> = match get_entry(&self.index, &song.id) {
            Some(e) => {
                if e.suffix == sidecar.fingerprint.suffix {
                    None
                } else {
                    Some(self.audio_path(&song.id, e.suffix.as_str()))
                }
            },
            None => None,
        };
        Ok(Commit { audio, sidecar, superseded })
    }

    /// Takes a commit into the index, once its sidecar is on disk. The bytes are fresh: neither
    /// stale nor suspect.
    pub fn committed(&mut self, sidecar: &Sidecar)
        requires
            old(self).wf(),
        ensures
            final(self).wf(),
            same_but_index(*final(self), *old(self)),
            final(self).entry(sidecar.song.id@) is Some,
            entry_of_commit(final(self).entry(sidecar.song.id@)->0, *sidecar),
            rebound(
                final(self).index@,
                old(self).index@,
                sidecar.song.id@,
                final(self).entry(sidecar.song.id@),
            ),
    {
        let e: IndexEntry = IndexEntry {
            id: sidecar.song.id.clone(),
            suffix: sidecar.fingerprint.suffix.clone(),
            size: sidecar.fingerprint.size,
            created: copy_opt(&sidecar.fingerprint.created),
            pinned: sidecar.pinned,
            stale: false,
            suspect: false,
            last_played_unix: sidecar.last_played_unix,
            recency_dirty: false,
        };
        put_entry(&mut self.index, e);
    }

    /// Drops an id, once its sidecar has been dealt with, and says which audio is left to
    /// remove. A sidecar that could not be removed leaves the entry whole on disk, so it stays
    /// in the index and keeps being offered.
    pub fn remove_entry(&mut self, id: &SongId, sidecar: Unlink) -> (r: Option<AudioRemoval>)
        requires
            old(self).wf(),
        ensures
            final(self).wf(),
            same_but_index(*final(self), *old(self)),
            r is None <==> sidecar is Refused,
            sidecar is Refused ==> *final(self) == *old(self),
            !(sidecar is Refused) ==> rebound(final(self).index@, old(self).index@, id@, None),
            r is Some ==> removes(
                r->0,
                old(self).root@,
                id@,
                match old(self).entry(id@) {
                    Some(e) => Some(e.suffix@),
                    None => None,
                },
            ),
    {
        if !is_gone(sidecar) {
            return None;
        }
        match drop_entry(&mut self.index, id) {
            Some(e) => Some(remove_audio(self.root.as_str(), id, Some(e.suffix.as_str()))),
            None => Some(remove_audio(self.root.as_str(), id, None)),
        }
    }

    /// Takes a change of an id's record into the index, once it is on disk.
    fn mirror(&mut self, id: &SongId, c: SidecarChange)
        requires
            old(self).wf(),
        ensures
            final(self).wf(),
            same_but_index(*final(self), *old(self)),
            rebound(
                final(self).index@,
                old(self).index@,
                id@,
                (match old(self).entry(id@) {
                    Some(e) => Some(mirrored(e, c)),
                    None => None,
                }),
            ),
    {
        match get_entry(&self.index, id) {
            Some(e) => {
                let mut e: IndexEntry = e.clone();
                match c {
                    SidecarChange::Pinned(b) => {
                        e.pinned = b;
                    },
                    SidecarChange::Stale(b) => {
                        e.stale = b;
                    },
                    SidecarChange::LastPlayed(t) => {
                        if e.last_played_unix == t {
                            e.recency_dirty = false;
                        }
                    },
                }
                put_entry(&mut self.index, e);
            },
            None => {},
        }
    }

    /// Takes a written `pinned` flag into the index. A demotion keeps the bytes.
    pub fn set_pinned(&mut self, id: &SongId, pinned: bool)
        requires
            old(self).wf(),
        ensures
            final(self).wf(),
            same_but_index(*final(self), *old(self)),
            rebound(
                final(self).index@,
                old(self).index@,
                id@,
                (match old(self).entry(id@) {
                    Some(e) => Some((IndexEntry { pinned, ..e })),
                    None => None,
                }),
            ),
            old(self).entry(id@) is Some ==> final(self).entry(id@) == Some(
                mirrored(old(self).entry(id@)->0, SidecarChange::Pinned(pinned)),
            ),
    {
        self.mirror(id, SidecarChange::Pinned(pinned));
    }

    /// Takes a written `stale` flag into the index. A stale entry keeps serving.
    pub fn set_stale(&mut self, id: &SongId, stale: bool)
        requires
            old(self).wf(),
        ensures
            final(self).wf(),
            same_but_index(*final(self), *old(self)),
            rebound(
                final(self).index@,
                old(self).index@,
                id@,
                (match old(self).entry(id@) {
                    Some(e) => Some((IndexEntry { stale, ..e })),
                    None => None,
                }),
            ),
            old(self).entry(id@) is Some ==> final(self).entry(id@) == Some(
                mirrored(old(self).entry(id@)->0, SidecarChange::Stale(stale)),
            ),
    {
        self.mirror(id, SidecarChange::Stale(stale));
    }

    /// Takes a written recency into the index: clean, unless it moved meanwhile.
    pub fn flush_recency(&mut self, id: &SongId, last_played_unix: u64)
        requires
            old(self).wf(),
        ensures
            final(self).wf(),
            same_but_index(*final(self), *old(self)),
            rebound(
                final(self).index@,
                old(self).index@,
                id@,
                (match old(self).entry(id@) {
                    Some(e) => Some(
                        (IndexEntry {
                            recency_dirty: e.recency_dirty && e.last_played_unix
                                != last_played_unix,
                            ..e
                        }),
                    ),
                    None => None,
                }),
            ),
            old(self).entry(id@) is Some ==> final(self).entry(id@) == Some(
                mirrored(old(self).entry(id@)->0, SidecarChange::LastPlayed(last_played_unix)),
            ),
    {
        self.mirror(id, SidecarChange::LastPlayed(last_played_unix));
    }

    /// Asks for a full pass.
    pub fn kick_full(&mut self)
        ensures
            final(self).full_requested,
            *final(self) == (AudioStore { full_requested: true, ..*old(self) }),
    {
        self.full_requested = true;
    }

    /// Takes a pending request for a full pass.
    pub fn take_full_request(&mut self) -> (r: bool)
        ensures
            r == old(self).full_requested,
            *final(self) == (AudioStore { full_requested: false, ..*old(self) }),
    {
        let asked: bool = self.full_requested;
        self.full_requested = false;
        asked
    }

    /// Records whether the deck plays off the network.
    pub fn set_playback_remote(&mut self, remote: bool)
        ensures
            *final(self) == (AudioStore { playback_remote: remote, ..*old(self) }),
    {
        self.playback_remote = remote;
    }

    /// Whether the deck plays off the network.
    pub fn playback_remote(&self) -> (r: bool)
        ensures
            r == self.playback_remote,
    {
        self.playback_remote
    }

    /// Suspends or resumes bulk work by hand. Resuming asks for a full pass.
    pub fn set_paused(&mut self, paused: bool) -> (r: bool)
        ensures
            r == paused,
            *final(self) == (AudioStore {
                paused,
                full_requested: old(self).full_requested || !paused,
                ..*old(self)
            }),
    {
        self.paused = paused;
        if !paused {
            self.kick_full();
        }
        paused
    }

    /// Whether bulk work is suspended by hand.
    pub fn paused(&self) -> (r: bool)
        ensures
            r == self.paused,
    {
        self.paused
    }

    /// What the store last said of itself.
    pub fn status(&self) -> (r: StoreStatus)
        ensures
            r.same_as(self.status),
    {
        self.status.clone()
    }

    /// Publishes what a pass found out.
    pub fn publish_status(&mut self, status: StoreStatus)
        ensures
            *final(self) == (AudioStore { status, ..*old(self) }),
    {
        self.status = status;
    }

    /// Replaces the index with what a fresh scan found, and carries over the flags that only
    /// memory knows. What the scan did not see is gone.
    pub fn resync_from_scan(&mut self, scanned: &Vec<IndexEntry>)
        ensures
            same_but_index(*final(self), *old(self)),
            distinct_entries(final(self).index@),
            forall|id: Seq<char>| #[trigger]
                final(self).entry(id) == carried_opt(entry_with(scanned@, id), old(self).index@),
    {
        let mut next: Vec<IndexEntry> = Vec::new();
        let ghost was = self.index@;
        for i in 0..scanned.len()
            invariant
                was == self.index@,
                *self == *old(self),
                distinct_entries(next@),
                forall|id: Seq<char>| #[trigger]
                    entry_with(next@, id) == carried_opt(
                        entry_with(scanned@.take(i as int), id),
                        was,
                    ),
        {
            let ghost before = next@;
            let mut e: IndexEntry = scanned[i].clone();
            match get_entry(&self.index, &e.id) {
                Some(o) => {
                    e.suspect = o.suspect;
                    if o.recency_dirty && o.last_played_unix >= e.last_played_unix {
                        e.last_played_unix = o.last_played_unix;
                        e.recency_dirty = true;
                    }
                },
                None => {},
            }
            assert(e == carried(scanned@[i as int], was));
            put_entry(&mut next, e);
            proof {
                let upto = scanned@.take(i + 1);
                assert(upto.drop_last() =~= scanned@.take(i as int));
                assert forall|id: Seq<char>| #[trigger] entry_with(next@, id) == carried_opt(
                    entry_with(upto, id),
                    was,
                ) by {
                    assert(entry_with(before, id) == carried_opt(
                        entry_with(scanned@.take(i as int), id),
                        was,
                    ));
                }
            }
        }
        assert(scanned@.take(scanned@.len() as int) =~= scanned@);
        self.index = next;
    }
}

proof fn removing_an_id(was: Seq<SongId>, at: int)
    requires
        distinct_ids(was),
        0 <= at < was.len(),
    ensures
        distinct_ids(was.remove(at)),
        forall|x: Seq<char>|
            #[trigger] lists_id(was.remove(at), x) <==> lists_id(was, x) && x != was[at]@,
{
    let now = was.remove(at);
    assert forall|i: int, j: int| 0 <= i < j < now.len() implies (#[trigger] now[i])@ != (
    #[trigger] now[j])@ by {
        let a = if i < at {
            i
        } else {
            i + 1
        };
        let b = if j < at {
            j
        } else {
            j + 1
        };
        assert(now[i] == was[a] && now[j] == was[b]);
        assert(was[a]@ != was[b]@);
    }
    assert forall|x: Seq<char>| #[trigger] lists_id(now, x) <==> lists_id(was, x) && x
        != was[at]@ by {
        if lists_id(now, x) {
            let k = choose|k: int| 0 <= k < now.len() && (#[trigger] now[k])@ == x;
            let a = if k < at {
                k
            } else {
                k + 1
            };
            assert(was[a] == now[k]);
            assert(was[a]@ == x);
            if a < at {
                assert(was[a]@ != was[at]@);
            } else {
                assert(was[at]@ != was[a]@);
            }
        }
        if lists_id(was, x) && x != was[at]@ {
            let k = choose|k: int| 0 <= k < was.len() && (#[trigger] was[k])@ == x;
            let a = if k < at {
                k
            } else {
                k - 1
            };
            assert(now[a] == was[k]);
            assert(now[a]@ == x);
        }
    }
}

} // verus!
