//! The rules that stand alone: keys and suffixes, timestamps, budgets, backoff, gates.
use hypodj_core::backoff::{
    Attempt, Backoff, DOWNLOAD_BACKOFF_BASE, DOWNLOAD_BACKOFF_MAX, DOWNLOAD_GIVE_UP_AFTER,
};
use hypodj_core::budget::{
    budget_reserve, derive_budget, evict_target, pin_ceiling, star_floor, STAR_FLOOR_BYTES,
    STORE_CRITICAL_AVAIL, STORE_EVICT_FLOOR, STORE_PIN_CEILING_SETBACK, STORE_RESERVE_FLOOR,
    STORE_RESERVE_FRACTION_PCT,
};
use hypodj_core::config::{StoreConfig, DEFAULT_STORE_MAX_BYTES, STORE_MIN_MAX_BYTES};
use hypodj_core::entries::IndexEntry;
use hypodj_core::expand::sort_albums_newest_first;
use hypodj_core::model::{Album, AlbumId, Song, SongId};
use hypodj_core::names::{is_storable_id, is_tmp_name, sanitize_suffix, FALLBACK_SUFFIX};
use hypodj_core::plan::Verdict;
use hypodj_core::planner::fingerprint_verdict;
use hypodj_core::reconcile::{PassReport, MAX_EVICTION_CHAIN};
use hypodj_core::sidecar::{
    sidecar_from_toml, Fingerprint, Sidecar, ENDPOINT_DOWNLOAD, STORE_SCHEMA_VERSION,
};
use hypodj_core::time::{created_matches, days_from_civil, parse_rfc3339_epoch};

const GIB: u64 = 1024 * 1024 * 1024;

fn sid(id: &str) -> SongId {
    SongId(id.to_string())
}

fn song(id: &str, size: u64, suffix: &str, created: Option<&str>) -> Song {
    Song {
        id: sid(id),
        title: format!("t-{id}"),
        album: Some("al".into()),
        album_id: None,
        artist: Some("ar".into()),
        track: Some(3),
        duration_secs: Some(210),
        cover_art: None,
        starred: true,
        musicbrainz_id: None,
        disc: None,
        year: Some(2019),
        genre: Some("Electronic".into()),
        bitrate: Some(1000),
        comment: None,
        user_rating: None,
        composer: None,
        performer: None,
        size: Some(size),
        suffix: Some(suffix.into()),
        content_type: Some("audio/flac".into()),
        created: created.map(|c| c.to_string()),
        play_count: Some(7),
        played: Some("2026-08-06T14:17:24+01:00".into()),
    }
}

fn entry(id: &str, size: u64, last_played: u64) -> IndexEntry {
    IndexEntry {
        id: sid(id),
        suffix: "flac".into(),
        size,
        created: Some("2024-05-01T12:00:00Z".into()),
        pinned: false,
        stale: false,
        suspect: false,
        last_played_unix: last_played,
        recency_dirty: false,
    }
}

fn sample_sidecar() -> Sidecar {
    Sidecar {
        schema_version: STORE_SCHEMA_VERSION,
        endpoint: ENDPOINT_DOWNLOAD.to_string(),
        content_type: Some("audio/flac".into()),
        pinned: true,
        stale: false,
        fetched_at_unix: 1_700_000_000,
        last_played_unix: 1_700_000_500,
        fingerprint: Fingerprint {
            size: 22_548_990,
            suffix: "flac".into(),
            created: Some("2024-05-01T12:34:56.000Z".into()),
        },
        song: song("so-1", 22_548_990, "flac", Some("2024-05-01T12:34:56.000Z")),
    }
}

#[test]
fn a_tight_disk_does_not_delete_the_mirror_but_a_critical_one_does() {
    let plenty = 40 * 1024 * 1024 * 1024;
    let configured = 16 * 1024 * 1024 * 1024;
    assert_eq!(
        evict_target(100 * 1024 * 1024, configured, plenty),
        STORE_EVICT_FLOOR,
        "a transient squeeze must not reclaim below the floor"
    );
    let big = 8 * 1024 * 1024 * 1024;
    assert_eq!(evict_target(big, configured, plenty), big);
    assert_eq!(
        evict_target(0, configured, 1024 * 1024 * 1024),
        0,
        "below the critical mark the disk needs the space more than the music does"
    );
    assert_eq!(evict_target(0, configured, STORE_CRITICAL_AVAIL), 0, "boundary is inclusive");
}

#[test]
fn the_floor_never_overrides_a_deliberately_small_configured_cap() {
    let plenty = 40 * 1024 * 1024 * 1024;
    let small = 64 * 1024 * 1024;
    assert_eq!(
        evict_target(small, small, plenty),
        small,
        "a 64 MiB store still evicts at 64 MiB, not at the 2 GiB floor"
    );
}

#[test]
fn the_eviction_floor_never_lets_the_store_grow() {
    assert_eq!(derive_budget(0, 1_000_000_000_000, 0, u64::MAX), Some(0));
}

#[test]
fn is_storable_id_admits_only_path_safe_ids() {
    for ok in ["a", "so-1", "SO_1", "0", "abc123", "a-b_c-9", "-", "_"] {
        assert!(is_storable_id(ok), "{ok:?} must be storable");
    }
    for bad in [
        "", "..", ".", "a/b", "/abs", "a.b", "a b", "a\"b", "a'b", "a\nb", "a\\b", "a;b",
        "cafe\u{301}", "a*", "a?", "a\0b", "$(id)", "~",
    ] {
        assert!(!is_storable_id(bad), "{bad:?} must be rejected");
    }
}

#[test]
fn sanitize_suffix_table_including_the_toml_collision() {
    assert_eq!(sanitize_suffix(Some("flac")), "flac");
    assert_eq!(sanitize_suffix(Some("mp3")), "mp3");
    assert_eq!(sanitize_suffix(Some("MP3")), "mp3", "lowercased");
    assert_eq!(sanitize_suffix(Some("  ogg  ")), "ogg", "trimmed");
    assert_eq!(sanitize_suffix(Some("m4a")), "m4a");
    assert_eq!(sanitize_suffix(Some("toml")), FALLBACK_SUFFIX);
    assert_eq!(sanitize_suffix(Some("TOML")), FALLBACK_SUFFIX);
    for bad in [
        "", "  ", "../../etc/passwd", "a/b", "fl.ac", "waytoolongsuffix", "f l", "f\"",
    ] {
        assert_eq!(sanitize_suffix(Some(bad)), FALLBACK_SUFFIX, "{bad:?}");
    }
    assert_eq!(sanitize_suffix(None), FALLBACK_SUFFIX);
    for s in ["flac", "toml", "../x", ""] {
        let once = sanitize_suffix(Some(s));
        assert_eq!(sanitize_suffix(Some(&once)), once, "{s:?}");
    }
}

#[test]
fn is_tmp_name_matches_our_temps_and_not_a_song_called_tmp() {
    assert!(is_tmp_name("tmp.1234.0"));
    assert!(is_tmp_name("tmp.1.99999"));
    assert!(!is_tmp_name("tmp.flac"));
    assert!(!is_tmp_name("tmp.toml"));
    assert!(!is_tmp_name("tmp.12a.0"));
    assert!(!is_tmp_name("tmp.1234"));
    assert!(!is_tmp_name("tmp..0"));
    assert!(!is_tmp_name("so-1.flac"));
    assert!(!is_tmp_name("tmpfile"));
}

#[test]
fn parse_rfc3339_epoch_table() {
    assert_eq!(parse_rfc3339_epoch("1970-01-01T00:00:00Z"), Some(0));
    assert_eq!(parse_rfc3339_epoch("2024-05-01T12:34:56Z"), Some(1_714_566_896));
    assert_eq!(parse_rfc3339_epoch("2024-05-01T12:34:56.789Z"), Some(1_714_566_896));
    assert_eq!(parse_rfc3339_epoch("2024-05-01T12:34:56,7Z"), Some(1_714_566_896));
    assert_eq!(parse_rfc3339_epoch("2024-05-01T14:34:56+02:00"), Some(1_714_566_896));
    assert_eq!(parse_rfc3339_epoch("2024-05-01T14:34:56+0200"), Some(1_714_566_896));
    assert_eq!(parse_rfc3339_epoch("2024-05-01T10:34:56-02:00"), Some(1_714_566_896));
    assert_eq!(parse_rfc3339_epoch("2024-05-01T12:34:56"), Some(1_714_566_896));
    assert_eq!(parse_rfc3339_epoch("2024-05-01 12:34:56z"), Some(1_714_566_896));
    assert_eq!(parse_rfc3339_epoch("2016-12-31T23:59:60Z"), Some(1_483_228_800));
    assert_eq!(parse_rfc3339_epoch("2000-02-29T00:00:00Z"), Some(951_782_400));
    assert_eq!(parse_rfc3339_epoch("2100-03-01T00:00:00Z"), Some(4_107_542_400));
    assert_eq!(parse_rfc3339_epoch("1969-12-31T23:59:59Z"), Some(-1));
    for bad in [
        "", "not a date", "2024-05-01", "2024-05-01T12:34", "2024-13-01T00:00:00Z",
        "2024-05-32T00:00:00Z", "2024-05-01T24:00:00Z", "2024-05-01T00:60:00Z",
        "2024-05-01T00:00:61Z", "2024/05/01T00:00:00Z", "2024-05-01X00:00:00Z",
        "2024-05-01T12:34:56.Z", "2024-05-01T12:34:56+99:00", "2024-05-01T12:34:56*",
        "20xx-05-01T00:00:00Z", "2024-05-01T12:34:56+2",
    ] {
        assert_eq!(parse_rfc3339_epoch(bad), None, "{bad:?} must not parse");
    }
}

#[test]
fn parse_rfc3339_epoch_never_panics_on_a_non_ascii_offset() {
    for bad in [
        "2024-05-01T12:34:56+\u{20ac}9",
        "2024-05-01T12:34:56-\u{20ac}9",
        "2024-05-01T12:34:56+\u{e9}\u{e9}",
        "2024-05-01T12:34:56+0\u{e9}0",
        "2024-05-01T12:34:56+\u{4e00}\u{4e8c}",
        "2024-05-01T12:34:56\u{20ac}",
        "2024-05-01T12:34:56.5+\u{20ac}9",
    ] {
        assert_eq!(parse_rfc3339_epoch(bad), None, "{bad:?} must not parse");
    }
    assert!(created_matches("2024-05-01T12:34:56+\u{20ac}9", "2024-05-01T12:34:56+\u{20ac}9"));
    assert!(!created_matches("2024-05-01T12:34:56+\u{20ac}9", "2024-05-01T12:34:56Z"));
    assert_eq!(
        fingerprint_verdict(
            &{
                let mut e = entry("odd", 100, 0);
                e.created = Some("2024-05-01T12:34:56Z".into());
                e
            },
            &song("odd", 100, "flac", Some("2024-05-01T12:34:56+\u{20ac}9")),
        ),
        Verdict::Differ,
        "an unparseable server timestamp is drift, not a panic"
    );
}

#[test]
fn created_matches_compares_instants_not_strings() {
    assert!(created_matches("2024-05-01T12:34:56Z", "2024-05-01T14:34:56+02:00"));
    assert!(created_matches("2024-05-01T12:34:56.000Z", "2024-05-01T12:34:56Z"));
    assert!(created_matches("2024-05-01T12:34:56Z", "2024-05-01T12:34:56"));
    assert!(!created_matches("2024-05-01T12:34:56Z", "2024-05-01T12:34:57Z"));
    assert!(!created_matches("2024-05-01T12:34:56Z", "2025-01-01T00:00:00Z"));
    assert!(created_matches("who knows", "who knows"));
    assert!(!created_matches("who knows", "something else"));
    assert!(!created_matches("who knows", "2024-05-01T12:34:56Z"));
}

#[test]
fn sidecar_from_toml_corruption_battery_is_none_never_panics() {
    // What does not parse at all.
    assert!(sidecar_from_toml(None).is_none());
    for v in [0u32, 2, 999] {
        let sc = Sidecar { schema_version: v, ..sample_sidecar() };
        assert!(sidecar_from_toml(Some(sc)).is_none(), "version {v}");
    }
    for ep in ["stream", "", "Download", "transcode"] {
        let sc = Sidecar { endpoint: ep.into(), ..sample_sidecar() };
        assert!(sidecar_from_toml(Some(sc)).is_none(), "endpoint {ep:?}");
    }
    let sc = Sidecar {
        fingerprint: Fingerprint { size: 0, suffix: "flac".into(), created: None },
        ..sample_sidecar()
    };
    assert!(sidecar_from_toml(Some(sc)).is_none(), "zero size");
    for bad in ["../../etc/passwd", "toml", "FLAC", "a/b", ""] {
        let sc = Sidecar {
            fingerprint: Fingerprint { size: 10, suffix: bad.into(), created: None },
            ..sample_sidecar()
        };
        assert!(sidecar_from_toml(Some(sc)).is_none(), "suffix {bad:?}");
    }
    let mut bad_id = sample_sidecar();
    bad_id.song.id = SongId("../evil".into());
    assert!(sidecar_from_toml(Some(bad_id)).is_none());
    // What passes every gate comes back whole.
    assert_eq!(sidecar_from_toml(Some(sample_sidecar())), Some(sample_sidecar()));
}

#[test]
fn derive_budget_lets_free_space_beat_the_configured_cap_and_never_the_reverse() {
    assert_eq!(budget_reserve(2000 * GIB), 100 * GIB, "5 % beats the floor on a big disk");

    assert_eq!(derive_budget(500 * GIB, 2000 * GIB, 10 * GIB, 16 * GIB), Some(16 * GIB));
    assert_eq!(derive_budget(105 * GIB, 2000 * GIB, 10 * GIB, 16 * GIB), Some(15 * GIB));
    assert_eq!(derive_budget(100 * GIB, 2000 * GIB, 0, 16 * GIB), Some(0));
    assert_eq!(derive_budget(60 * GIB, 2000 * GIB, 10 * GIB, 16 * GIB), Some(0));
    assert_eq!(derive_budget(500 * GIB, 2000 * GIB, 10 * GIB, GIB), Some(GIB));

    assert_eq!(
        derive_budget(113 * GIB, 929 * GIB, 2 * GIB, DEFAULT_STORE_MAX_BYTES),
        Some(DEFAULT_STORE_MAX_BYTES),
        "a roomy laptop disk gets the full configured cap"
    );
}

#[test]
fn derive_budget_floors_the_reserve_so_a_small_disk_is_not_cheaply_filled() {
    assert_eq!(budget_reserve(100 * GIB), STORE_RESERVE_FLOOR);
    assert_eq!(derive_budget(50 * GIB, 100 * GIB, 0, 16 * GIB), Some(16 * GIB));
    assert_eq!(derive_budget(25 * GIB, 100 * GIB, 0, 16 * GIB), Some(5 * GIB));

    assert_eq!(budget_reserve(6 * GIB), STORE_RESERVE_FLOOR);
    for own in [0, GIB, 5 * GIB] {
        assert_eq!(
            derive_budget(6 * GIB, 6 * GIB, own, 16 * GIB),
            Some(0),
            "a filesystem smaller than the reserve yields a zero budget"
        );
    }
}

#[test]
fn derive_budget_is_invariant_to_the_stores_own_eviction() {
    let cfg = 16 * GIB;
    let total = 2000 * GIB;
    let baseline = derive_budget(105 * GIB, total, 10 * GIB, cfg);
    assert_eq!(baseline, Some(15 * GIB), "the pool binds, so the case is a real test");
    for (avail, own) in [
        (105 * GIB, 10 * GIB),
        (110 * GIB, 5 * GIB),
        (114 * GIB, GIB),
        (115 * GIB, 0),
    ] {
        assert_eq!(
            derive_budget(avail, total, own, cfg),
            baseline,
            "freeing {own} of our own bytes must not move our own ceiling"
        );
    }
}

#[test]
fn derive_budget_never_trusts_an_unmeasured_or_nonsense_mount() {
    assert_eq!(derive_budget(101 * GIB, 100 * GIB, 0, 16 * GIB), None);
    assert_eq!(derive_budget(1, 0, 0, 16 * GIB), None);
    assert_eq!(derive_budget(0, 0, 0, 16 * GIB), Some(0));
    assert_eq!(derive_budget(u64::MAX, u64::MAX, u64::MAX, 16 * GIB), Some(16 * GIB));
    assert_eq!(derive_budget(0, u64::MAX, 0, u64::MAX), Some(0), "a huge disk with nothing free");
    let unlimited = derive_budget(u64::MAX, u64::MAX, u64::MAX, u64::MAX).expect("total");
    assert!(unlimited < u64::MAX, "the reserve applies even at the extreme");
    assert!(
        u64::MAX - unlimited >= u64::MAX / 100 * STORE_RESERVE_FRACTION_PCT,
        "and it holds back the full fraction"
    );
}

#[test]
fn the_derived_budget_may_fall_below_the_config_floor_while_the_knob_may_not() {
    let derived = derive_budget(
        STORE_RESERVE_FLOOR + 1024 * 1024,
        100 * GIB,
        0,
        DEFAULT_STORE_MAX_BYTES,
    );
    assert_eq!(derived, Some(1024 * 1024), "one megabyte of ceiling");
    assert!(
        derived.unwrap() < STORE_MIN_MAX_BYTES,
        "and it is allowed below the config floor"
    );

    let mut cfg = StoreConfig { max_bytes: 1, ..StoreConfig::default() };
    cfg.normalize();
    assert_eq!(
        cfg.max_bytes,
        STORE_MIN_MAX_BYTES,
        "while the configured knob is still clamped up at load"
    );
}

#[test]
fn pin_ceiling_is_total_and_never_starves_a_small_budget_to_nothing() {
    assert_eq!(pin_ceiling(0), 0);
    assert_eq!(pin_ceiling(16 * GIB), 16 * GIB - STORE_PIN_CEILING_SETBACK);
    assert_eq!(pin_ceiling(64 * 1024 * 1024), 48 * 1024 * 1024);
    for max in [1u64, 4, 999, 1 << 20, 1 << 30, u64::MAX] {
        let c = pin_ceiling(max);
        assert!(c <= max, "the pin ceiling never exceeds the budget ({max})");
        assert!(c > 0, "a non-zero budget always leaves room for pins ({max})");
    }
}

#[test]
fn the_floor_never_becomes_the_whole_policy_on_a_small_store() {
    for ceiling in [0u64, 1, 999, 1 << 20, 3 * GIB, 16 * GIB, u64::MAX] {
        let f = star_floor(ceiling);
        assert!(f <= ceiling / 2, "never more than half the mirror ({ceiling})");
        assert!(f <= STAR_FLOOR_BYTES, "never more than the absolute cap ({ceiling})");
    }
    assert_eq!(star_floor(0), 0, "no budget reserves nothing");
    assert_eq!(star_floor(16 * GIB), STAR_FLOOR_BYTES);
}

#[test]
fn sort_albums_newest_first_prefers_created_then_year_then_id() {
    let al = |id: &str, created: Option<&str>, year: Option<u32>| Album {
        id: AlbumId(id.to_string()),
        name: format!("al-{id}"),
        artist: "ar".into(),
        artist_id: None,
        year,
        genre: None,
        cover_art: None,
        song_count: 1,
        created: created.map(|c| c.to_string()),
    };
    let mut albums = vec![
        al("no-info", None, None),
        al("old", Some("2019-01-01T00:00:00Z"), Some(2019)),
        al("newest", Some("2024-06-01T00:00:00Z"), Some(2001)),
        al("year-only-b", None, Some(2020)),
        al("year-only-a", None, Some(2020)),
    ];
    sort_albums_newest_first(&mut albums);
    assert_eq!(
        albums.iter().map(|a| a.id.0.as_str()).collect::<Vec<_>>(),
        vec!["newest", "old", "year-only-a", "year-only-b", "no-info"],
    );
}

#[test]
fn backoff_doubles_per_failure_and_clears_on_success() {
    let mut b = Backoff::default();
    let id = sid("x");
    let t0: u64 = 1_000_000_000_000;
    assert!(b.ready(&id, t0), "an id with no history is always ready");
    b.fail(&id, t0);
    assert!(!b.ready(&id, t0 + DOWNLOAD_BACKOFF_BASE - 1_000_000_000));
    assert!(b.ready(&id, t0 + DOWNLOAD_BACKOFF_BASE));
    b.fail(&id, t0);
    assert!(!b.ready(&id, t0 + DOWNLOAD_BACKOFF_BASE));
    assert!(b.ready(&id, t0 + DOWNLOAD_BACKOFF_BASE * 2));
    for _ in 0..64 {
        b.fail(&id, t0);
    }
    assert!(
        !b.ready(&id, t0 + DOWNLOAD_BACKOFF_MAX),
        "a permanently-invalid download must stop being attempted, not just slow \
         down: the backoff bounds the RATE, this bounds the TOTAL"
    );
    assert_eq!(b.attempt(&id, t0 + DOWNLOAD_BACKOFF_MAX), Attempt::GivenUp);
    b.succeed(&id);
    assert!(b.ready(&id, t0), "a success forgets the history entirely");
}

#[test]
fn an_id_is_given_up_on_only_after_the_full_run_of_failures() {
    let mut b = Backoff::default();
    let id = sid("x");
    let t0: u64 = 1_000_000_000_000;
    for i in 1..DOWNLOAD_GIVE_UP_AFTER {
        b.fail(&id, t0);
        assert_ne!(
            b.attempt(&id, t0 + DOWNLOAD_BACKOFF_MAX),
            Attempt::GivenUp,
            "failure {i} is still inside the transient budget"
        );
        assert!(!b.just_gave_up(&id));
    }
    b.fail(&id, t0);
    assert_eq!(b.attempt(&id, t0 + DOWNLOAD_BACKOFF_MAX), Attempt::GivenUp);
    assert!(b.just_gave_up(&id), "the warn fires exactly on the crossing");
    b.fail(&id, t0);
    assert!(!b.just_gave_up(&id), "the give-up is reported ONCE, never every pass");
    assert_eq!(b.attempt(&id, t0 + DOWNLOAD_BACKOFF_MAX), Attempt::GivenUp);
}

#[test]
fn a_waiting_id_is_distinguishable_from_a_given_up_one() {
    let mut b = Backoff::default();
    let id = sid("x");
    let t0: u64 = 1_000_000_000_000;
    b.fail(&id, t0);
    assert_eq!(b.attempt(&id, t0), Attempt::Waiting);
    assert_eq!(b.attempt(&id, t0 + DOWNLOAD_BACKOFF_BASE), Attempt::Now);
}

#[test]
fn re_enter_requires_progress_not_merely_outstanding_work() {
    assert!(PassReport { scheduled: 4, given_up: 0, committed: 1, evicted: 0, ..PassReport::default() }.re_enter(4, 0));
    assert!(!PassReport { scheduled: 4, given_up: 0, committed: 0, evicted: 0, ..PassReport::default() }.re_enter(4, 0));
    assert!(!PassReport { scheduled: 2, given_up: 0, committed: 2, evicted: 0, ..PassReport::default() }.re_enter(4, 0));
    assert!(PassReport { scheduled: 0, given_up: 0, committed: 0, evicted: 1, ..PassReport::default() }.re_enter(4, 0));
}

#[test]
fn eviction_only_re_entry_is_capped_but_a_draining_download_chain_is_not() {
    let evicting = PassReport { scheduled: 0, given_up: 0, committed: 0, evicted: 1, ..PassReport::default() };
    assert!(evicting.re_enter(4, MAX_EVICTION_CHAIN - 1), "the last link is allowed");
    assert!(!evicting.re_enter(4, MAX_EVICTION_CHAIN), "and then the loop must wait");
    assert!(!evicting.re_enter(4, MAX_EVICTION_CHAIN + 9));

    let draining = PassReport { scheduled: 4, given_up: 0, committed: 4, evicted: 0, ..PassReport::default() };
    assert!(draining.re_enter(4, MAX_EVICTION_CHAIN * 100));
    assert!(draining.drained_a_full_batch(4), "which is what resets the chain");
    assert!(!evicting.drained_a_full_batch(4));
    let both = PassReport { scheduled: 4, given_up: 0, committed: 1, evicted: 2, ..PassReport::default() };
    assert!(both.re_enter(4, MAX_EVICTION_CHAIN));
}

#[test]
fn an_offset_is_made_of_digits() {
    for bad in ["++2:00", "+-2:00", "-+2:00", "+02:+5", "+02-5", "+-2", "++200"] {
        let text = format!("2024-05-01T12:34:56{bad}");
        assert_eq!(parse_rfc3339_epoch(&text), None, "{text:?} must not parse");
    }
}

#[test]
fn eras_repeat_as_far_as_the_days_can_be_counted() {
    assert_eq!(days_from_civil(1970, 1, 1), 0);
    assert_eq!(days_from_civil(2000, 1, 1), 10_957);
    for eras in [-60_000_000_000_000i64, -25_000_000, 25_000_000, 60_000_000_000_000] {
        assert_eq!(days_from_civil(2000 + 400 * eras, 1, 1), 10_957 + 146_097 * eras);
        assert_eq!(days_from_civil(2000 + 400 * eras, 2, 29), 11_016 + 146_097 * eras);
    }
}

#[test]
fn every_written_offset_is_read() {
    let utc = 1_714_566_896;
    for fraction in ["", ".5", ",000001"] {
        for (tail, at) in [
            ("", utc),
            ("Z", utc),
            ("z", utc),
            ("+05:30", utc - 19_800),
            ("+0530", utc - 19_800),
            ("+05", utc - 18_000),
            ("-05:30", utc + 19_800),
            ("-0530", utc + 19_800),
            ("-05", utc + 18_000),
        ] {
            let text = format!("2024-05-01T12:34:56{fraction}{tail}");
            assert_eq!(parse_rfc3339_epoch(&text), Some(at), "{text}");
        }
    }
}

#[test]
fn what_matches_one_rendering_matches_them_all() {
    let one = ["2024-05-01T12:34:56Z", "2024-05-01T14:34:56+0200", "2024-05-01 07:04:56.9-05:30"];
    for a in one {
        for b in one {
            assert!(created_matches(a, b), "{a} and {b}");
        }
        assert!(!created_matches(a, "some day"));
    }
}
