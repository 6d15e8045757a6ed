//! The store's index and its directory, and the reconciler around them.
use hypodj_core::backoff::{Attempt, Backoff, DOWNLOAD_BACKOFF_BASE, DOWNLOAD_GIVE_UP_AFTER};
use hypodj_core::budget::{statvfs_space, BudgetSource};
use hypodj_core::commit::{Commit, CommitStep, StoreError};
use hypodj_core::config::StoreConfig;
use hypodj_core::entries::{DeleteReason, IndexEntry};
use hypodj_core::expand::{
    definitive, Ask, PinWalk, Reply, ALBUM_MEMO_TTL, ARTIST_ALBUM_CAP, PIN_SET_MEMO_TTL,
};
use hypodj_core::memo::PinMemo;
use hypodj_core::model::{Album, AlbumId, Artist, ArtistId, Song, SongId, Starred};
use hypodj_core::pins::{PinGroup, PinKind, PinSet, PinTier};
use hypodj_core::plan::{DownloadReason, PassInput, PassMode, StoreAction};
use hypodj_core::planner::plan_pass;
use hypodj_core::reconcile::{
    conclude, measure, next_download, observe, settle_download, worth_saying, DownloadStep, Effect,
    Execution, Measure, PassReport, Rounds, Wake, MAX_EVICTION_CHAIN,
};
use hypodj_core::removal::{
    all_gone, is_gone, leftovers, remove_audio, AudioRemoval, Listed, Unlink,
};
use hypodj_core::scan::{audio_name, scan_dir, sidecar_ids, AudioFile, DirScan, SidecarRead};
use hypodj_core::sidecar::{mutate_sidecar, Sidecar, SidecarChange, ENDPOINT_DOWNLOAD};
use hypodj_core::status::StoreStatus;
use hypodj_core::store::AudioStore;
use hypodj_core::text::has_prefix;
use hypodj_core::transfer::{fetch_size, Transfer, TransferError, DOWNLOAD_SIZE_SLACK};

const SEC: u64 = 1_000_000_000;

fn sid(id: &str) -> SongId {
    SongId(id.to_string())
}

fn song(id: &str, size: Option<u64>, suffix: Option<&str>) -> Song {
    Song {
        id: sid(id),
        title: format!("t-{id}"),
        album: None,
        album_id: None,
        artist: None,
        track: None,
        duration_secs: None,
        cover_art: None,
        starred: true,
        musicbrainz_id: None,
        disc: None,
        year: None,
        genre: None,
        bitrate: None,
        comment: None,
        user_rating: None,
        composer: None,
        performer: None,
        size,
        suffix: suffix.map(|s| s.to_string()),
        content_type: Some("audio/flac".to_string()),
        created: Some("2024-05-01T12:00:00Z".to_string()),
        play_count: None,
        played: None,
    }
}

fn entry(id: &str, size: u64, last_played: u64) -> IndexEntry {
    IndexEntry {
        id: sid(id),
        suffix: "flac".to_string(),
        size,
        created: Some("2024-05-01T12:00:00Z".to_string()),
        pinned: false,
        stale: false,
        suspect: false,
        last_played_unix: last_played,
        recency_dirty: false,
    }
}

fn store_of(entries: Vec<IndexEntry>) -> AudioStore {
    AudioStore::open("/s".to_string(), StoreConfig::default(), &entries)
}

fn commit_of(store: &AudioStore, s: &Song, len: u64) -> Commit {
    store.commit(s, Some(len), true, 1_000).expect("a commit")
}

/// The sidecar that a commit of this song would write.
fn sidecar(id: &str, size: u64, suffix: &str) -> Sidecar {
    commit_of(&store_of(Vec::new()), &song(id, Some(size), Some(suffix)), size).sidecar
}

fn names(list: &[&str]) -> Vec<String> {
    list.iter().map(|n| n.to_string()).collect()
}

// The scan.

#[test]
fn a_scan_sorts_the_directory_into_what_is_valid_and_what_must_go() {
    let dir = names(&[
        "a-b.toml",
        "a.toml",
        "a.flac",
        "a-b.mp3",
        "tmp.12.0",
        ".hypodj-store",
        "stray.flac",
        "tmp.toml",
        "bad id.toml",
    ]);
    let ids: Vec<String> = sidecar_ids(&dir).into_iter().map(|i| i.0).collect();
    // By file name: a hyphen sorts before the dot.
    assert_eq!(ids, vec!["a-b", "a", "tmp"]);
    let reads = vec![
        SidecarRead { parsed: Some(sidecar("a-b", 7, "mp3")), audio: AudioFile::Plain(7) },
        SidecarRead { parsed: Some(sidecar("a", 9, "flac")), audio: AudioFile::Plain(9) },
        SidecarRead { parsed: None, audio: AudioFile::Missing },
    ];
    let scan = scan_dir("/s", &dir, &reads);
    let got: Vec<&str> = scan.entries.iter().map(|e| e.id.0.as_str()).collect();
    assert_eq!(got, vec!["a", "a-b"], "entries come by id");
    assert_eq!(scan.entries[0].size, 9);
    assert_eq!(scan.entries[1].suffix, "mp3");
    assert!(scan.entries[0].pinned && !scan.entries[0].suspect);
    assert_eq!(scan.orphan_sidecars, vec![(sid("tmp"), DeleteReason::CorruptSidecar)]);
    assert_eq!(scan.stale_tmps, names(&["/s/tmp.12.0"]));
    assert_eq!(scan.orphan_audio, names(&["/s/bad id.toml", "/s/stray.flac"]));
}

#[test]
fn a_scan_says_why_a_sidecar_must_go() {
    let dir = names(&["x.toml", "x.flac"]);
    let why = |parsed: Option<Sidecar>, audio: AudioFile| {
        let scan = scan_dir("/s", &dir, &vec![SidecarRead { parsed, audio }]);
        assert!(scan.entries.is_empty());
        assert_eq!(scan.orphan_audio, names(&["/s/x.flac"]), "and its audio is loose");
        scan.orphan_sidecars[0].1
    };
    let whole = || Some(sidecar("x", 5, "flac"));
    assert_eq!(why(whole(), AudioFile::Missing), DeleteReason::MissingAudio);
    assert_eq!(why(whole(), AudioFile::Other), DeleteReason::LengthMismatch);
    assert_eq!(why(whole(), AudioFile::Plain(4)), DeleteReason::LengthMismatch);
    assert_eq!(why(None, AudioFile::Plain(5)), DeleteReason::CorruptSidecar);
    // A sidecar that speaks for another id is not this file's.
    assert_eq!(
        why(Some(sidecar("y", 5, "flac")), AudioFile::Plain(5)),
        DeleteReason::CorruptSidecar
    );
    assert_eq!(audio_name(&sid("x"), &whole()), Some("x.flac".to_string()));
    assert_eq!(audio_name(&sid("y"), &whole()), None);
    assert_eq!(scan_dir("/s", &Vec::new(), &Vec::new()), DirScan::default());
}

// The index.

#[test]
fn a_lookup_offers_only_bytes_of_the_recorded_length() {
    let mut store = store_of(vec![entry("a", 10, 0)]);
    let path = Some("/s/a.flac".to_string());
    assert_eq!(store.candidate(&sid("a")), path);
    assert_eq!(store.lookup(&sid("a"), AudioFile::Plain(10)), path);
    assert_eq!(store.lookup(&sid("a"), AudioFile::Plain(9)), None);
    assert_eq!(store.lookup(&sid("a"), AudioFile::Other), None);
    assert_eq!(store.lookup(&sid("a"), AudioFile::Missing), None);
    assert_eq!(store.lookup(&sid("b"), AudioFile::Plain(10)), None);
    assert!(store.mark_suspect(&sid("a")), "the first mark changes something");
    assert!(!store.mark_suspect(&sid("a")), "the second does not");
    assert!(!store.mark_suspect(&sid("b")));
    assert_eq!(store.candidate(&sid("a")), None);
    assert_eq!(store.lookup(&sid("a"), AudioFile::Plain(10)), None, "suspect bytes are not offered");
}

#[test]
fn a_commit_is_refused_unless_the_length_is_exact() {
    let store = store_of(Vec::new());
    let refused = |s: &Song, len: Option<u64>| match store.commit(s, len, false, 5) {
        Ok(_) => panic!("committed"),
        Err(e) => e,
    };
    let good = song("a", Some(10), Some("FLAC"));
    assert_eq!(refused(&song("../a", Some(10), None), Some(10)), StoreError::Unstorable);
    assert_eq!(refused(&song("a", None, None), Some(10)), StoreError::NoSize);
    assert_eq!(refused(&song("a", Some(0), None), Some(0)), StoreError::NoSize);
    assert_eq!(refused(&good, None), StoreError::Unreadable);
    assert_eq!(refused(&good, Some(9)), StoreError::WrongLength { got: 9, expected: 10 });
    let c = store.commit(&good, Some(10), true, 5).expect("exact");
    assert_eq!(c.audio, "/s/a.flac");
    assert_eq!(c.superseded, None);
    assert_eq!(c.sidecar.endpoint, ENDPOINT_DOWNLOAD);
    assert_eq!((c.sidecar.fetched_at_unix, c.sidecar.last_played_unix), (5, 5));
    assert!(c.sidecar.pinned && !c.sidecar.stale);
    // An unusable suffix falls back.
    let odd = commit_of(&store, &song("b", Some(1), Some("toml")), 1);
    assert_eq!(odd.audio, "/s/b.bin");
}

#[test]
fn a_commit_clears_every_mark_and_names_what_it_supersedes() {
    let mut old = entry("a", 4, 1);
    old.suffix = "mp3".to_string();
    old.suspect = true;
    old.stale = true;
    old.recency_dirty = true;
    let mut store = store_of(vec![old, entry("b", 1, 1)]);
    let c = commit_of(&store, &song("a", Some(10), Some("flac")), 10);
    assert_eq!(c.superseded, Some("/s/a.mp3".to_string()));
    store.committed(&c.sidecar);
    let e = store.entries()[0].clone();
    assert_eq!((e.suffix.as_str(), e.size, e.last_played_unix), ("flac", 10, 1_000));
    assert!(e.pinned && !e.stale && !e.suspect && !e.recency_dirty);
    assert_eq!(store.lookup(&sid("a"), AudioFile::Plain(10)), Some(c.audio));
    assert_eq!(store.total_bytes(), 11);
    // What the commit put in the index is what the next scan reads back.
    let scan = scan_dir(
        "/s",
        &names(&["a.toml", "a.flac"]),
        &vec![SidecarRead { parsed: Some(c.sidecar.clone()), audio: AudioFile::Plain(10) }],
    );
    assert_eq!(scan.entries, vec![e]);
    assert!(store.write_sidecar(&c.sidecar).is_ok());
    let mut evil = c.sidecar.clone();
    evil.song.id = sid("../evil");
    assert_eq!(store.write_sidecar(&evil), Err(StoreError::Unstorable));
}

#[test]
fn a_refused_removal_keeps_the_entry() {
    let mut store = store_of(vec![entry("a", 10, 0), entry("b", 10, 0)]);
    assert!(store.remove_entry(&sid("a"), Unlink::Refused).is_none());
    assert_eq!(store.entries().len(), 2, "what could not be deleted keeps being offered");
    match store.remove_entry(&sid("a"), Unlink::Removed) {
        Some(AudioRemoval::File(p)) => assert_eq!(p, "/s/a.flac"),
        other => panic!("{other:?}"),
    }
    assert_eq!(store.entries().len(), 1);
    match store.remove_entry(&sid("a"), Unlink::Absent) {
        Some(AudioRemoval::Prefixed(p)) => {
            assert_eq!(p, "a.");
            assert!(has_prefix("a.flac", &p) && !has_prefix("ab.flac", &p));
        }
        other => panic!("{other:?}"),
    }
    assert!(is_gone(Unlink::Removed) && is_gone(Unlink::Absent) && !is_gone(Unlink::Refused));
}

#[test]
fn a_commit_writes_its_record_last_and_drops_the_old_bytes_after_it() {
    let spelled = |c: &Commit| -> Vec<String> {
        c.steps()
            .iter()
            .map(|s| match s {
                CommitStep::Sync => "sync".to_string(),
                CommitStep::Publish(p) => format!("publish {p}"),
                CommitStep::SyncDirectory => "sync directory".to_string(),
                CommitStep::Record => "record".to_string(),
                CommitStep::Supersede(p) => format!("supersede {p}"),
                CommitStep::Enter => "enter".to_string(),
            })
            .collect()
    };
    let mut old = entry("a", 4, 1);
    old.suffix = "mp3".to_string();
    let store = store_of(vec![old]);
    let c = commit_of(&store, &song("a", Some(10), Some("flac")), 10);
    assert_eq!(
        spelled(&c),
        ["sync", "publish /s/a.flac", "sync directory", "record", "supersede /s/a.mp3", "enter"]
    );
    let vital: Vec<bool> = c.steps().iter().map(|s| s.is_vital()).collect();
    assert_eq!(vital, [true, true, false, true, false, true]);
    // Under the same suffix there is nothing to drop: the rename replaced it.
    let c = commit_of(&store, &song("a", Some(10), Some("mp3")), 10);
    assert_eq!(spelled(&c), ["sync", "publish /s/a.mp3", "sync directory", "record", "enter"]);
}

#[test]
fn what_an_entry_leaves_behind_is_its_own() {
    let listed = |name: &str, dir: bool| Listed { name: name.to_string(), dir };
    let listing = vec![
        listed("a.flac", false),
        listed("ab.flac", false),
        listed("a.d", true),
        listed(".hypodj-store", false),
        listed("a.mp3", false),
        listed("a", false),
    ];
    let prefix = match remove_audio("/s", &sid("a"), None) {
        AudioRemoval::Prefixed(p) => p,
        other => panic!("{other:?}"),
    };
    assert_eq!(leftovers(&listing, &prefix), [0, 4]);
    match remove_audio("/s", &sid("a"), Some("ogg")) {
        AudioRemoval::File(p) => assert_eq!(p, "/s/a.ogg"),
        other => panic!("{other:?}"),
    }
    assert!(all_gone(&vec![]) && all_gone(&vec![Unlink::Removed, Unlink::Absent]));
    assert!(!all_gone(&vec![Unlink::Removed, Unlink::Refused]), "one refusal is no progress");
}

#[test]
fn a_rescan_keeps_what_only_memory_knows() {
    let mut store = store_of(vec![entry("m", 12, 100), entry("gone", 1, 1), entry("old", 1, 50)]);
    assert!(store.mark_suspect(&sid("m")));
    store.note_played(&sid("m"), 999);
    store.note_played(&sid("old"), 60);
    store.resync_from_scan(&vec![entry("m", 12, 100), entry("old", 1, 70)]);
    let entries = store.entries();
    assert_eq!(entries.len(), 2, "what the scan did not see is gone");
    assert!(entries[0].suspect);
    assert_eq!(entries[0].last_played_unix, 999, "an unwritten bump outranks the disk");
    assert!(entries[0].recency_dirty);
    // A newer recency on disk wins over an older bump.
    assert_eq!(entries[1].last_played_unix, 70);
    assert!(!entries[1].recency_dirty);
}

#[test]
fn marks_reach_the_index_and_a_moved_recency_stays_dirty() {
    let mut store = store_of(vec![entry("a", 10, 5)]);
    store.set_pinned(&sid("a"), true);
    store.set_stale(&sid("a"), true);
    store.note_played(&sid("a"), 40);
    store.flush_recency(&sid("a"), 39);
    let e = store.entries()[0].clone();
    assert!(e.pinned && e.stale && e.recency_dirty, "a bump that moved meanwhile stays dirty");
    store.flush_recency(&sid("a"), 40);
    assert!(!store.entries()[0].recency_dirty);
    store.set_pinned(&sid("nobody"), true);
    assert_eq!(store.entries().len(), 1);

    let sc = sidecar("a", 10, "flac");
    let changed = mutate_sidecar(Some(sc.clone()), SidecarChange::Stale(true)).expect("a record");
    assert!(changed.stale);
    assert_eq!(changed.fingerprint, sc.fingerprint);
    let changed = mutate_sidecar(Some(sc.clone()), SidecarChange::Pinned(false)).expect("a record");
    assert!(!changed.pinned);
    let changed = mutate_sidecar(Some(sc), SidecarChange::LastPlayed(77)).expect("a record");
    assert_eq!(changed.last_played_unix, 77);
    assert_eq!(mutate_sidecar(None, SidecarChange::Stale(true)), None);
}

#[test]
fn the_window_and_the_protected_ids_are_the_callers_to_set() {
    let mut store = store_of(Vec::new());
    assert!(store.set_window(vec![sid("a"), sid("b")]));
    assert!(!store.set_window(vec![sid("a"), sid("b")]), "the same window is no change");
    assert!(store.set_window(vec![sid("b"), sid("a")]), "another order is");
    assert_eq!(store.window(), vec![sid("b"), sid("a")]);
    store.protect(sid("x"));
    store.protect(sid("y"));
    store.protect(sid("x"));
    assert_eq!(store.protected_ids().len(), 2);
    store.unprotect(&sid("x"));
    store.unprotect(&sid("z"));
    assert_eq!(store.protected_ids(), vec![sid("y")]);
}

#[test]
fn a_full_request_sticks_until_it_is_taken() {
    let mut store = store_of(Vec::new());
    assert!(!store.take_full_request());
    store.kick_full();
    assert!(store.take_full_request());
    assert!(!store.take_full_request());
    assert!(store.set_paused(true));
    assert!(!store.take_full_request(), "pausing asks for nothing");
    assert!(!store.set_paused(false));
    assert!(store.take_full_request(), "resuming asks for a full pass");
    store.set_playback_remote(true);
    assert!(store.playback_remote() && !store.paused());
}

#[test]
fn paths_stand_in_the_store_directory() {
    let store = store_of(vec![entry("a", 1, 1)]);
    assert_eq!(store.root(), "/s");
    assert_eq!(store.sidecar_path(&sid("a")), "/s/a.toml");
    assert_eq!(store.audio_path(&sid("a"), "mp3"), "/s/a.mp3");
    assert_eq!(store.tmp_path(42, 7), "/s/tmp.42.7");
    assert_eq!(store.config().max_bytes, StoreConfig::default().max_bytes);
    let sc = sidecar("a", 1, "flac");
    assert_eq!(store.cached_song(&sid("a"), Some(sc.clone())).map(|s| s.id), Some(sid("a")));
    assert_eq!(store.cached_song(&sid("b"), Some(sc)), None);
    assert_eq!(store.cached_song(&sid("a"), None), None);
}

#[test]
fn the_statfs_fields_become_bytes() {
    assert_eq!(statvfs_space(10, 100, 4096, 512), Some((40_960, 409_600)));
}

// The pass.

#[test]
fn a_pass_sees_the_store_and_its_measure() {
    let mut store = store_of(vec![entry("b", 5, 0), entry("a", 5, 0)]);
    store.set_window(vec![sid("w")]);
    store.protect(sid("p"));
    store.set_playback_remote(true);
    let budget = measure(Some((500, 100)), 10, 77);
    assert_eq!(
        budget,
        Measure {
            max_bytes: 77,
            source: BudgetSource::Config,
            reserve: 0,
            avail: 0,
            fs_total: 0,
        },
        "nonsense from a mount leaves the configured cap"
    );
    assert_eq!(measure(None, 10, 77), budget);
    let gib = 1024 * 1024 * 1024;
    let real = measure(Some((105 * gib, 2000 * gib)), 10 * gib, 16 * gib);
    assert_eq!((real.max_bytes, real.source), (15 * gib, BudgetSource::FreeSpace));
    assert_eq!((real.reserve, real.avail, real.fs_total), (100 * gib, 105 * gib, 2000 * gib));

    let mut scan = DirScan::default();
    scan.stale_tmps = names(&["/s/tmp.1.1"]);
    let input = observe(&store, PassMode::Full, 4, 99, real, Some(scan), None);
    assert_eq!(input.entries.iter().map(|e| e.id.0.as_str()).collect::<Vec<_>>(), vec!["a", "b"]);
    assert_eq!(input.window, vec![sid("w")]);
    assert_eq!(input.protected, vec![sid("p")]);
    assert!(input.defer_bulk && !input.paused);
    assert_eq!((input.max_bytes, input.now_unix), (15 * gib, 99));
    assert_eq!(input.configured_max, store.config().max_bytes);
    assert!(plan_pass(&input).contains(&StoreAction::SweepTmp("/s/tmp.1.1".to_string())));
}

#[test]
fn the_loop_starts_full_and_a_kick_alone_is_light() {
    let mut rounds = Rounds::start(0, 1_000);
    assert_eq!(rounds.interval, SEC, "an interval is at least a second");
    assert_eq!(rounds.take_next(), Some(PassMode::Full));
    assert_eq!(rounds.take_next(), None);
    assert_eq!(Rounds::woken(Wake::Tick), (PassMode::Full, false));
    assert_eq!(Rounds::woken(Wake::Kick { full: false }), (PassMode::Light, false));
    assert_eq!(
        Rounds::woken(Wake::Kick { full: true }),
        (PassMode::Full, true),
        "only a full kick drops what is remembered of the pins"
    );
    rounds.begin(PassMode::Light, 5_000);
    assert_eq!(rounds.next_full, 1_000, "a light pass never delays the full one");
    rounds.begin(PassMode::Full, 5_000);
    assert_eq!(rounds.next_full, 5_000 + SEC);
}

#[test]
fn evictions_alone_go_on_only_so_often() {
    let mut rounds = Rounds::start(900, 0);
    rounds.take_next();
    let evicting = PassReport { evicted: 1, ..PassReport::default() };
    for _ in 0..MAX_EVICTION_CHAIN {
        assert!(!rounds.finish(PassMode::Full, &evicting, 4));
        assert_eq!(rounds.take_next(), Some(PassMode::Full));
    }
    assert!(rounds.finish(PassMode::Full, &evicting, 4), "and then it says that it stalled");
    assert_eq!(rounds.take_next(), None);
    assert_eq!(rounds.eviction_chain, 0);
    // A drained batch resets the chain and goes on in its own mode.
    let draining = PassReport { scheduled: 4, committed: 4, evicted: 3, ..PassReport::default() };
    assert!(!rounds.finish(PassMode::Light, &draining, 4));
    assert_eq!(rounds.take_next(), Some(PassMode::Light));
    assert_eq!(rounds.eviction_chain, 0);
    assert!(!rounds.finish(PassMode::Full, &PassReport::default(), 4));
    assert_eq!(rounds.take_next(), None, "nothing done, nothing to go on for");
}

fn pins_of(songs: Vec<Song>) -> Option<PinSet> {
    Some(PinSet::of_songs(songs))
}

#[test]
fn bulk_work_gives_way_and_what_is_heard_never_does() {
    let mut report = PassReport::default();
    let backoff = Backoff::default();
    let mut input = PassInput::new(PassMode::Full, 1 << 30);
    input.pins = pins_of(vec![song("a", Some(1), None)]);
    for reason in [DownloadReason::Backfill, DownloadReason::Stale] {
        for (remote, paused) in [(true, false), (false, true)] {
            let step =
                next_download(&mut report, &backoff, &input, &sid("a"), reason, remote, paused, 0);
            assert!(matches!(step, DownloadStep::Yield));
        }
    }
    assert_eq!(report.scheduled, 0, "what gives way was never up");
    for reason in [DownloadReason::Suspect, DownloadReason::Window] {
        let step = next_download(&mut report, &backoff, &input, &sid("a"), reason, true, true, 0);
        match step {
            DownloadStep::Fetch { known, pinned } => {
                assert_eq!(known.map(|s| s.id), Some(sid("a")));
                assert!(pinned);
            }
            other => panic!("{other:?}"),
        }
    }
    assert_eq!(report.scheduled, 2);
}

#[test]
fn without_a_pin_set_a_commit_keeps_the_flag_it_had() {
    let mut report = PassReport::default();
    let backoff = Backoff::default();
    let mut input = PassInput::new(PassMode::Light, 1 << 30);
    let mut e = entry("a", 1, 1);
    e.pinned = true;
    input.entries = vec![e, entry("b", 1, 1)];
    for (id, flag) in [("a", true), ("b", false), ("c", false)] {
        let step = next_download(
            &mut report,
            &backoff,
            &input,
            &sid(id),
            DownloadReason::Window,
            false,
            false,
            0,
        );
        match step {
            DownloadStep::Fetch { known, pinned } => {
                assert!(known.is_none(), "the server must be asked");
                assert_eq!(pinned, flag, "{id}");
            }
            other => panic!("{other:?}"),
        }
    }
}

#[test]
fn a_failing_download_waits_and_is_given_up_once() {
    let mut report = PassReport::default();
    let mut backoff = Backoff::default();
    let input = PassInput::new(PassMode::Full, 1 << 30);
    let id = sid("a");
    assert!(!settle_download(&mut report, &mut backoff, &id, false, 0));
    let mut ask = |backoff: &Backoff, now: u64, report: &mut PassReport| {
        next_download(report, backoff, &input, &id, DownloadReason::Window, false, false, now)
    };
    assert!(matches!(ask(&backoff, 1, &mut report), DownloadStep::Wait));
    assert!(matches!(
        ask(&backoff, DOWNLOAD_BACKOFF_BASE, &mut report),
        DownloadStep::Fetch { .. }
    ));
    let mut gave_up = 0;
    for _ in 1..DOWNLOAD_GIVE_UP_AFTER + 3 {
        if settle_download(&mut report, &mut backoff, &sid("a"), false, 0) {
            gave_up += 1;
        }
    }
    assert_eq!(gave_up, 1, "said once");
    assert!(matches!(ask(&backoff, u64::MAX, &mut report), DownloadStep::GivenUp));
    assert_eq!((report.given_up, report.committed), (1, 0));
    assert!(!settle_download(&mut report, &mut backoff, &sid("a"), true, 0));
    assert_eq!(report.committed, 1);
    assert_eq!(backoff.attempt(&sid("a"), 0), Attempt::Now, "a success forgets it all");
    report.evicted(false);
    report.evicted(true);
    assert_eq!(report.evicted, 1, "only bytes that went count");
}

#[test]
fn each_failure_waits_twice_as_long_up_to_an_hour() {
    let mut backoff = Backoff::default();
    let id = sid("a");
    for secs in [30u64, 60, 120, 240, 480, 960, 1920] {
        backoff.fail(&id, 0);
        assert_eq!(backoff.attempt(&id, secs * SEC - 1), Attempt::Waiting, "{secs}");
        assert_eq!(backoff.attempt(&id, secs * SEC), Attempt::Now, "{secs}");
    }
    backoff.fail(&id, 0);
    assert_eq!(backoff.attempt(&id, u64::MAX), Attempt::GivenUp);
}

#[test]
fn a_status_is_worth_saying_when_its_badge_changes() {
    let mut a = StoreStatus::default();
    assert!(worth_saying(&a, &StoreStatus::default()), "nothing was known before");
    a.known = true;
    let mut b = a.clone();
    assert!(!worth_saying(&a, &b));
    b.bytes = 7;
    assert!(!worth_saying(&a, &b), "bytes are not on the badge");
    b.pending_tracks = 1;
    assert!(worth_saying(&a, &b));
    let mut store = store_of(Vec::new());
    store.publish_status(b.clone());
    assert_eq!(store.status(), b);
}

#[test]
fn a_transfer_is_exact_or_abandoned() {
    assert_eq!(fetch_size(&song("a", Some(0), None)), None);
    assert_eq!(fetch_size(&song("a", None, None)), None);
    assert_eq!(fetch_size(&song("a", Some(3), None)), Some(3));
    assert_eq!(
        Transfer::start(10, Some(11)),
        Err(TransferError::Declared { len: 11, expected: 10 })
    );
    let mut t = Transfer::start(10, None).expect("started");
    assert_eq!(t.chunk(4), Ok(()));
    assert_eq!(t.finish(), Err(TransferError::Length { got: 4, expected: 10 }));
    assert_eq!(t.chunk(6), Ok(()));
    assert_eq!(t.finish(), Ok(10));
    // A body may run on within the slack, but not past it, and it never passes in the end.
    assert_eq!(t.chunk(DOWNLOAD_SIZE_SLACK), Ok(()));
    assert!(t.finish().is_err());
    let cap = 10 + DOWNLOAD_SIZE_SLACK;
    assert_eq!(t.chunk(1), Err(TransferError::Exceeded { cap }));
    let mut huge = Transfer::start(u64::MAX, Some(u64::MAX)).expect("started");
    assert_eq!(huge.chunk(u64::MAX), Ok(()));
    assert_eq!(huge.chunk(5), Ok(()), "sums saturate");
}

// The expansion.

fn album(id: &str, created: Option<&str>, song_count: u32) -> Album {
    Album {
        id: AlbumId(id.to_string()),
        name: format!("al-{id}"),
        artist: "ar".to_string(),
        artist_id: None,
        year: None,
        genre: None,
        cover_art: None,
        song_count,
        created: created.map(|c| c.to_string()),
    }
}

fn artist(id: &str) -> Artist {
    Artist {
        id: ArtistId(id.to_string()),
        name: format!("ar-{id}"),
        album_count: 0,
        starred: true,
        cover_art: None,
    }
}

fn tracks_of(id: &str) -> Vec<Song> {
    vec![song(&format!("{id}-1"), Some(1), None), song(&format!("{id}-2"), Some(1), None)]
}

#[test]
fn a_walk_takes_songs_then_albums_then_each_artists_albums_newest_first() {
    let mut walk = PinWalk::start(Starred {
        songs: vec![song("s", Some(1), None)],
        albums: vec![album("x", None, 2)],
        artists: vec![artist("one"), artist("two")],
    });
    let mut asked: Vec<String> = Vec::new();
    loop {
        match walk.next() {
            Ask::Album(a) => {
                asked.push(a.id.0.clone());
                walk.heard_album(tracks_of(&a.id.0));
            }
            Ask::Artist(a) => {
                asked.push(a.0.clone());
                let listed = if a.0 == "one" {
                    definitive(Reply::Found(vec![
                        album("old", Some("2001-01-01T00:00:00Z"), 2),
                        album("new", Some("2024-01-01T00:00:00Z"), 2),
                    ]))
                } else {
                    definitive(Reply::Gone)
                };
                walk.heard_artist(listed.expect("definitive"));
            }
            Ask::Nothing => break,
        }
    }
    assert_eq!(asked, vec!["x", "one", "new", "old", "two"]);
    let set = walk.finish();
    let got: Vec<(PinKind, PinTier, &str, &str, usize)> = set
        .groups
        .iter()
        .map(|g: &PinGroup| (g.kind, g.tier, g.id.as_str(), g.name.as_str(), g.songs.len()))
        .collect();
    assert_eq!(
        got,
        vec![
            (PinKind::Song, PinTier::Song, "s", "t-s", 1),
            (PinKind::Album, PinTier::Album, "x", "al-x", 2),
            (PinKind::Album, PinTier::Artist, "new", "ar-one - al-new", 2),
            (PinKind::Album, PinTier::Artist, "old", "ar-one - al-old", 2),
        ]
    );
}

#[test]
fn an_artist_over_the_cap_keeps_the_newest() {
    let mut walk = PinWalk::start(Starred {
        songs: Vec::new(),
        albums: Vec::new(),
        artists: vec![artist("many")],
    });
    let listed: Vec<Album> = (0..ARTIST_ALBUM_CAP + 20)
        .map(|i| album(&format!("a{i:03}"), Some(&format!("2{i:03}-01-01T00:00:00Z")), 1))
        .collect();
    walk.heard_artist(listed);
    assert_eq!(walk.queue.len(), ARTIST_ALBUM_CAP);
    assert_eq!(walk.queue[0].album.id.0, "a119");
    assert_eq!(walk.queue[ARTIST_ALBUM_CAP - 1].album.id.0, "a020");
}

#[test]
fn a_listing_that_is_gone_is_empty_and_one_that_failed_is_a_failure() {
    assert_eq!(definitive(Reply::Found(vec![1u8, 2])), Ok(vec![1, 2]));
    assert_eq!(definitive::<u8>(Reply::Gone), Ok(Vec::new()));
    assert_eq!(definitive::<u8>(Reply::Failed("flaky".to_string())), Err("flaky".to_string()));
}

#[test]
fn an_album_is_remembered_until_it_ages_or_its_count_disagrees() {
    let mut memo = PinMemo::default();
    let x = album("x", None, 2);
    assert!(memo.album_tracks(&x, 0).is_none());
    memo.remember_album(&x, 100, &tracks_of("x"));
    memo.remember_album(&album("y", None, 2), 100, &tracks_of("y"));
    assert_eq!(memo.album_tracks(&x, 100 + ALBUM_MEMO_TTL - 1), Some(tracks_of("x")));
    assert!(memo.album_tracks(&x, 100 + ALBUM_MEMO_TTL).is_none());
    assert!(memo.album_tracks(&album("x", None, 3), 101).is_none());
    memo.remember_album(&x, 500, &tracks_of("z"));
    assert_eq!(memo.album_tracks(&x, 500), Some(tracks_of("z")));
    assert_eq!(memo.albums.len(), 2);
    // A walk that no longer wants an album lets it go.
    let walk = PinWalk::start(Starred {
        songs: Vec::new(),
        albums: vec![album("y", None, 2)],
        artists: Vec::new(),
    });
    memo.retain(&walk.queue);
    assert!(memo.album_tracks(&x, 500).is_none());
    assert_eq!(memo.album_tracks(&album("y", None, 2), 500), Some(tracks_of("y")));
}

#[test]
fn a_pin_set_is_remembered_for_a_chain_and_forgotten_on_a_star() {
    let mut memo = PinMemo::default();
    assert!(memo.pins(0).is_none());
    let set = PinSet::of_songs(vec![song("a", Some(1), None)]);
    memo.remember_pins(1_000, set.clone());
    assert_eq!(memo.pins(1_000 + PIN_SET_MEMO_TTL - 1), Some(set));
    assert!(memo.pins(1_000 + PIN_SET_MEMO_TTL).is_none());
    memo.remember_album(&album("x", None, 2), 1_000, &tracks_of("x"));
    memo.invalidate();
    assert!(memo.pins(1_000).is_none());
    assert!(memo.album_tracks(&album("x", None, 2), 1_000).is_none());
}

#[test]
fn a_plan_is_carried_out_in_its_order() {
    let backoff = Backoff::default();
    let mut input = PassInput::new(PassMode::Full, 1 << 30);
    input.pins = pins_of(vec![song("d", Some(1), None)]);
    let mut pass = Execution::start(vec![
        StoreAction::SweepTmp("/s/tmp.1.1".to_string()),
        StoreAction::DeleteFile("/s/stray".to_string()),
        StoreAction::DeleteEntry { id: sid("x"), reason: DeleteReason::MissingAudio },
        StoreAction::SetStale { id: sid("a"), stale: true },
        StoreAction::SetPinned { id: sid("b"), pinned: false },
        StoreAction::Download { id: sid("d"), reason: DownloadReason::Backfill },
        StoreAction::Download { id: sid("d"), reason: DownloadReason::Window },
        StoreAction::FlushRecency { id: sid("f"), last_played_unix: 9 },
        StoreAction::Evict(sid("e")),
    ]);
    let mut seen: Vec<String> = Vec::new();
    while let Some(effect) = pass.next(&backoff, &input, true, false, 0) {
        seen.push(match effect {
            Effect::Unlink(p) => format!("unlink {p}"),
            Effect::Remove(id) => format!("remove {}", id.0),
            Effect::SetStale { id, stale } => format!("stale {} {stale}", id.0),
            Effect::SetPinned { id, pinned } => format!("pinned {} {pinned}", id.0),
            Effect::FlushRecency { id, last_played_unix } => format!("flush {} {last_played_unix}", id.0),
            Effect::Evict(id) => format!("evict {}", id.0),
            Effect::Download { id, step } => match step {
                DownloadStep::Yield => format!("yield {}", id.0),
                DownloadStep::Fetch { pinned, .. } => format!("fetch {} {pinned}", id.0),
                other => format!("{other:?}"),
            },
        });
    }
    assert_eq!(
        seen,
        vec![
            "unlink /s/tmp.1.1",
            "unlink /s/stray",
            "remove x",
            "stale a true",
            "pinned b false",
            "yield d",
            "fetch d true",
            "flush f 9",
            "evict e",
        ]
    );
    assert_eq!(pass.report.scheduled, 1, "what gave way was not up");

    let mut store = store_of(Vec::new());
    let mut report = PassReport { given_up: 2, ..PassReport::default() };
    assert!(!conclude(&mut store, &mut report, 55, None));
    assert_eq!(report.budget, 55);
    assert!(conclude(&mut store, &mut report, 55, Some(StoreStatus { known: true, ..StoreStatus::default() })));
    assert_eq!(store.status().given_up, 2);
    assert!(!conclude(&mut store, &mut report, 55, Some(StoreStatus { known: true, ..StoreStatus::default() })));
}

#[test]
fn without_starred_pins_the_set_is_empty_and_not_unknown() {
    let mut memo = PinMemo::default();
    assert_eq!(memo.standing_pins(false, 5), Some(PinSet { groups: Vec::new() }));
    assert_eq!(memo.standing_pins(true, 5), None);
    memo.remember_pins(0, PinSet::of_songs(vec![song("a", Some(1), None)]));
    assert_eq!(memo.standing_pins(true, 5).map(|p| p.groups.len()), Some(1));
    assert_eq!(memo.standing_pins(false, 5).map(|p| p.groups.len()), Some(0));
}
