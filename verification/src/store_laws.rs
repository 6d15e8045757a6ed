//! What holds of the store across its operations.
use crate::commit::{commit_size, commits, refusal, Commit};
use crate::entries::{cached, entry_with, DeleteReason, IndexEntry};
use crate::index::rebound;
use crate::model::{Song, SongId};
use crate::names::{sanitized, storable};
use crate::paths::{dotted, joined};
use crate::scan::{entry_from, fault, AudioFile, SidecarRead};
use crate::sidecar::{
    changed, fresh_sidecar, fresh_sidecars_are_sound, sound_sidecar, Sidecar, SidecarChange,
    STORE_SCHEMA_VERSION,
};
use crate::store::{
    carried, distrusted, entry_of_commit, heard, lists_id, mirrored, named, offers, AudioStore,
};
use vstd::prelude::*;

verus! {

/// A commit that was not refused makes an entry that the next scan of the directory finds
/// valid and reads back unchanged, as long as the file keeps the size that was committed.
pub proof fn commits_survive_a_rescan(
    song: Song,
    tmp_len: Option<u64>,
    s: Sidecar,
    pinned: bool,
    now_unix: u64,
    made: IndexEntry,
    read: IndexEntry,
)
    requires
        refusal(song, tmp_len) is None,
        fresh_sidecar(s, song, commit_size(song)->0, pinned, now_unix),
        entry_of_commit(made, s),
        entry_from(read, s, song.id@),
    ensures
        fault(
            SidecarRead { parsed: Some(s), audio: AudioFile::Plain(made.size) },
            song.id@,
        ) is None,
        read.id@ == made.id@,
        read.suffix == made.suffix,
        read.size == made.size,
        read.created == made.created,
        read.pinned == made.pinned,
        read.stale == made.stale,
        read.suspect == made.suspect,
        read.last_played_unix == made.last_played_unix,
        read.recency_dirty == made.recency_dirty,
{
    fresh_sidecars_are_sound(s, song, commit_size(song)->0, pinned, now_unix);
}

/// A commit replaces whatever was suspect or stale: its entry is neither, it is of exactly the
/// reported size, and it is played from the path that the commit moved the bytes to.
pub proof fn commits_are_offered(
    store: AudioStore,
    song: Song,
    tmp_len: Option<u64>,
    s: Sidecar,
    pinned: bool,
    now_unix: u64,
)
    requires
        refusal(song, tmp_len) is None,
        fresh_sidecar(s, song, commit_size(song)->0, pinned, now_unix),
        store.entry(song.id@) is Some,
        entry_of_commit(store.entry(song.id@)->0, s),
    ensures
        !store.entry(song.id@)->0.suspect,
        !store.entry(song.id@)->0.stale,
        Some(store.entry(song.id@)->0.size) == tmp_len,
        joined(store.root@, dotted(song.id@, store.entry(song.id@)->0.suffix@)) == joined(
            store.root@,
            dotted(song.id@, s.fingerprint.suffix@),
        ),
{
}

/// A rescan never forgets a suspicion, never takes an unwritten recency back, and changes
/// nothing else of what the disk says.
pub proof fn rescans_keep_what_memory_knows(e: IndexEntry, was: Seq<IndexEntry>)
    requires
        !e.suspect,
        !e.recency_dirty,
    ensures
        carried(e, was).suspect <==> entry_with(was, e.id@) is Some && entry_with(
            was,
            e.id@,
        )->0.suspect,
        carried(e, was).last_played_unix >= e.last_played_unix,
        entry_with(was, e.id@) is Some && entry_with(was, e.id@)->0.recency_dirty ==> carried(
            e,
            was,
        ).last_played_unix >= entry_with(was, e.id@)->0.last_played_unix,
        carried(e, was).recency_dirty ==> carried(e, was).last_played_unix == entry_with(
            was,
            e.id@,
        )->0.last_played_unix,
        carried(e, was).id == e.id,
        carried(e, was).suffix == e.suffix,
        carried(e, was).size == e.size,
        carried(e, was).created == e.created,
        carried(e, was).pinned == e.pinned,
        carried(e, was).stale == e.stale,
{
}

/// A change that reached both the record and the index leaves them saying the same. A recency
/// is clean afterwards only where the two agree on it.
pub proof fn changes_reach_both(e: IndexEntry, s: Sidecar, c: SidecarChange)
    requires
        e.pinned == s.pinned,
        e.stale == s.stale,
        !e.recency_dirty ==> e.last_played_unix == s.last_played_unix,
        c is LastPlayed ==> e.recency_dirty || c->LastPlayed_0 == e.last_played_unix,
    ensures
        mirrored(e, c).pinned == changed(s, c).pinned,
        mirrored(e, c).stale == changed(s, c).stale,
        !mirrored(e, c).recency_dirty ==> mirrored(e, c).last_played_unix == changed(
            s,
            c,
        ).last_played_unix,
{
}

/// Bytes are played only where nothing is held against them and the file is there whole: an
/// entry, not suspect, and a plain file of exactly its size. A file that is longer is no better
/// than one that is shorter.
pub proof fn only_whole_files_are_played(e: Option<IndexEntry>, audio: AudioFile, len: u64)
    ensures
        e is None ==> !offers(e, audio),
        e is Some && e->0.suspect ==> !offers(e, audio),
        !offers(e, AudioFile::Missing),
        !offers(e, AudioFile::Other),
        e is Some && !e->0.suspect ==> (offers(e, AudioFile::Plain(len)) <==> len == e->0.size),
{
}

/// A play moves an entry's recency to its moment and leaves that to be written out; a failed one
/// makes it suspect. Neither touches anything else, and pins and staleness do not decide what is
/// played.
pub proof fn plays_touch_recency_alone(e: IndexEntry, now_unix: u64, audio: AudioFile)
    ensures
        heard(e, now_unix).last_played_unix == now_unix,
        heard(e, now_unix).recency_dirty,
        heard(e, now_unix) == (IndexEntry {
            last_played_unix: heard(e, now_unix).last_played_unix,
            recency_dirty: heard(e, now_unix).recency_dirty,
            ..e
        }),
        offers(Some(heard(e, now_unix)), audio) == offers(Some(e), audio),
        distrusted(e).suspect,
        distrusted(e) == (IndexEntry { suspect: distrusted(e).suspect, ..e }),
        !offers(Some(distrusted(e)), audio),
        offers(Some(IndexEntry { pinned: !e.pinned, ..e }), audio) == offers(Some(e), audio),
        offers(Some(IndexEntry { stale: !e.stale, ..e }), audio) == offers(Some(e), audio),
{
}

/// A change of one field is of that field, in the record and in the index alike. A recency that
/// was written out is clean only where it is the one that was written.
pub proof fn changes_are_of_one_field(e: IndexEntry, s: Sidecar, b: bool, t: u64)
    ensures
        changed(s, SidecarChange::Pinned(b)) == (Sidecar { pinned: b, ..s }),
        changed(s, SidecarChange::Stale(b)) == (Sidecar { stale: b, ..s }),
        changed(s, SidecarChange::LastPlayed(t)) == (Sidecar { last_played_unix: t, ..s }),
        mirrored(e, SidecarChange::Pinned(b)) == (IndexEntry { pinned: b, ..e }),
        mirrored(e, SidecarChange::Stale(b)) == (IndexEntry { stale: b, ..e }),
        e.last_played_unix != t ==> mirrored(e, SidecarChange::LastPlayed(t)) == e,
        e.last_played_unix == t ==> !mirrored(e, SidecarChange::LastPlayed(t)).recency_dirty
            && mirrored(e, SidecarChange::LastPlayed(t)) == (IndexEntry {
            recency_dirty: false,
            ..e
        }),
{
}

/// A recency that was not written out and is no older than the one on disk survives a rescan,
/// still to be written; an older one, and one that was written, do not.
pub proof fn rescans_keep_the_later_recency(e: IndexEntry, was: Seq<IndexEntry>, o: IndexEntry)
    requires
        entry_with(was, e.id@) == Some(o),
        !e.recency_dirty,
    ensures
        carried(e, was).recency_dirty <==> o.recency_dirty && o.last_played_unix
            >= e.last_played_unix,
        carried(e, was).recency_dirty ==> carried(e, was).last_played_unix == o.last_played_unix,
        !carried(e, was).recency_dirty ==> carried(e, was).last_played_unix == e.last_played_unix,
        carried(e, was).suspect == o.suspect,
{
}

/// A commit's record says what was fetched: the song as the server reports it, of the reported
/// size, suffix and date, pinned as told, not stale, and played no earlier than now. Its entry
/// says the same.
pub proof fn commits_record_what_was_fetched(
    s: Sidecar,
    song: Song,
    size: u64,
    pinned: bool,
    now_unix: u64,
    e: IndexEntry,
)
    requires
        fresh_sidecar(s, song, size, pinned, now_unix),
        entry_of_commit(e, s),
    ensures
        s.schema_version == STORE_SCHEMA_VERSION,
        s.endpoint@ == "download"@,
        s.song == song,
        s.content_type == song.content_type,
        s.pinned == pinned && e.pinned == pinned,
        !s.stale && !e.stale && !e.suspect && !e.recency_dirty,
        s.fetched_at_unix == now_unix,
        s.last_played_unix == now_unix && e.last_played_unix == now_unix,
        s.fingerprint.size == size && e.size == size,
        s.fingerprint.created == song.created && e.created == song.created,
        song.suffix is Some ==> e.suffix@ == sanitized(Some(song.suffix->0@)),
        song.suffix is None ==> e.suffix@ == sanitized(None),
        e.suffix == s.fingerprint.suffix,
        e.id == song.id,
{
}

/// What a record must be to be trusted: of this schema, of originals, under an id that can be a
/// key, of at least one byte, and under a suffix that sanitizing leaves alone.
pub proof fn records_are_trusted_for_cause(s: Sidecar)
    ensures
        s.schema_version != STORE_SCHEMA_VERSION ==> !sound_sidecar(s),
        s.endpoint@ != "download"@ ==> !sound_sidecar(s),
        !storable(s.song.id@) ==> !sound_sidecar(s),
        s.fingerprint.size == 0 ==> !sound_sidecar(s),
        sanitized(Some(s.fingerprint.suffix@)) != s.fingerprint.suffix@ ==> !sound_sidecar(s),
        s.schema_version == STORE_SCHEMA_VERSION && s.endpoint@ == "download"@ && storable(
            s.song.id@,
        ) && s.fingerprint.size > 0 && sanitized(Some(s.fingerprint.suffix@))
            == s.fingerprint.suffix@ ==> sound_sidecar(s),
{
}

/// Why an entry is not valid: its record cannot be trusted or is another's, its audio is not
/// there, or what is there is no plain file of the recorded length, to the byte.
pub proof fn faults_are_named(read: SidecarRead, id: Seq<char>)
    ensures
        fault(read, id) == Some(DeleteReason::CorruptSidecar) <==> read.parsed is None
            || !sound_sidecar(read.parsed->0) || read.parsed->0.song.id@ != id,
        fault(read, id) == Some(DeleteReason::MissingAudio) <==> read.parsed is Some
            && sound_sidecar(read.parsed->0) && read.parsed->0.song.id@ == id && read.audio
            == AudioFile::Missing,
        fault(read, id) is None <==> read.parsed is Some && sound_sidecar(read.parsed->0)
            && read.parsed->0.song.id@ == id && read.audio == AudioFile::Plain(
            read.parsed->0.fingerprint.size,
        ),
{
}

/// A scanned entry says what its record says.
pub proof fn entries_say_what_records_say(e: IndexEntry, s: Sidecar, id: Seq<char>)
    requires
        entry_from(e, s, id),
    ensures
        e.id@ == id,
        e.suffix == s.fingerprint.suffix,
        e.size == s.fingerprint.size,
        e.created == s.fingerprint.created,
        e.pinned == s.pinned,
        e.stale == s.stale,
        e.last_played_unix == s.last_played_unix,
        !e.suspect && !e.recency_dirty,
{
}

/// Where a commit puts a song's bytes, and what it takes away: the file goes under the song's id
/// and suffix, and the bytes of an earlier entry go exactly where they lie under another suffix.
pub proof fn commits_go_under_id_and_suffix(
    c: Commit,
    root: Seq<char>,
    was: Option<IndexEntry>,
    song: Song,
    pinned: bool,
    now_unix: u64,
)
    requires
        commits(c, root, was, song, pinned, now_unix),
        song.size is Some,
        song.size->0 > 0,
    ensures
        c.audio@ == joined(root, song.id@ + seq!['.'] + c.sidecar.fingerprint.suffix@),
        c.sidecar.fingerprint.size == song.size->0,
        c.sidecar.song == song,
        was is None ==> c.superseded is None,
        was is Some && was->0.suffix@ == c.sidecar.fingerprint.suffix@ ==> c.superseded is None,
        was is Some && was->0.suffix@ != c.sidecar.fingerprint.suffix@ ==> c.superseded is Some
            && c.superseded->0@ == joined(root, song.id@ + seq!['.'] + was->0.suffix@),
{
    let s = c.sidecar.fingerprint.suffix@;
    assert(dotted(song.id@, s) =~= song.id@ + seq!['.'] + s);
    if was is Some {
        assert(dotted(song.id@, was->0.suffix@) =~= song.id@ + seq!['.'] + was->0.suffix@);
    }
}

/// A change of the index is of one id: that id has the new entry, or none where it was dropped,
/// every other id has what it had, and no id has two.
pub proof fn changes_are_of_one_entry(
    now: Seq<IndexEntry>,
    was: Seq<IndexEntry>,
    id: Seq<char>,
    entry: Option<IndexEntry>,
    other: Seq<char>,
    i: int,
    j: int,
)
    requires
        rebound(now, was, id, entry),
        0 <= i < j < now.len(),
    ensures
        entry_with(now, id) == entry,
        other != id ==> entry_with(now, other) == entry_with(was, other),
        now[i].id@ != now[j].id@,
{
}

/// The entry of an id is the last that has it, and there is none exactly where no entry does.
pub proof fn entries_are_found_by_id(entries: Seq<IndexEntry>, e: IndexEntry, id: Seq<char>)
    ensures
        entry_with(entries.push(e), e.id@) == Some(e),
        id != e.id@ ==> entry_with(entries.push(e), id) == entry_with(entries, id),
        entry_with(Seq::empty(), id) is None,
        cached(entries, id) <==> entry_with(entries, id) is Some,
{
    assert(entries.push(e).drop_last() =~= entries);
}

/// An id is protected exactly where the list names it, and the window is the ids in their order.
pub proof fn ids_are_listed_by_name(ids: Seq<SongId>, id: Seq<char>, k: int)
    ensures
        lists_id(ids, id) <==> exists|i: int| 0 <= i < ids.len() && (#[trigger] ids[i])@ == id,
        named(ids).len() == ids.len(),
        0 <= k < ids.len() ==> named(ids)[k] == ids[k]@,
{
}

} // verus!
