//! The planner and the frontier, on concrete inputs.
use hypodj_core::budget::{pin_ceiling, star_floor};
use hypodj_core::entries::{DeleteReason, IndexEntry};
use hypodj_core::frontier::Frontier;
use hypodj_core::model::{Song, SongId};
use hypodj_core::pins::{emphasis_rank, is_cold, PinGroup, PinKind, PinSet, PinTier};
use hypodj_core::plan::{DownloadReason, PassInput, PassMode, StoreAction};
use hypodj_core::planner::{plan_pass, plan_pass_with_status};
use hypodj_core::score::{GroupScore, SizeEntry};
use hypodj_core::status::{GroupStanding, RankedGroup, StoreStatus, StoreWaiting};
use std::collections::HashSet;

/// 2026-08-10T00:00:00Z, the moment that every age counts back from.
const NOW_TEST: u64 = 1_786_320_000;

fn sid(id: &str) -> SongId {
    SongId(id.to_string())
}

fn song(id: &str, size: u64, suffix: &str, created: Option<&str>) -> Song {
    Song {
        id: sid(id),
        title: format!("t-{id}"),
        album: Some("al".into()),
        album_id: None,
        artist: Some("ar".into()),
        track: Some(3),
        duration_secs: Some(210),
        cover_art: None,
        starred: true,
        musicbrainz_id: None,
        disc: None,
        year: Some(2019),
        genre: Some("Electronic".into()),
        bitrate: Some(1000),
        comment: None,
        user_rating: None,
        composer: None,
        performer: None,
        size: Some(size),
        suffix: Some(suffix.into()),
        content_type: Some("audio/flac".into()),
        created: created.map(|c| c.to_string()),
        play_count: Some(7),
        played: Some("2026-08-06T14:17:24+01:00".into()),
    }
}

fn entry(id: &str, size: u64, last_played: u64) -> IndexEntry {
    IndexEntry {
        id: sid(id),
        suffix: "flac".into(),
        size,
        created: Some("2024-05-01T12:00:00Z".into()),
        pinned: false,
        stale: false,
        suspect: false,
        last_played_unix: last_played,
        recency_dirty: false,
    }
}

fn dls(plan: &[StoreAction]) -> Vec<(String, DownloadReason)> {
    plan.iter()
        .filter_map(|a| match a {
            StoreAction::Download { id, reason } => Some((id.0.clone(), *reason)),
            _ => None,
        })
        .collect()
}

fn evictions(plan: &[StoreAction]) -> Vec<String> {
    plan.iter()
        .filter_map(|a| match a {
            StoreAction::Evict(id) => Some(id.0.clone()),
            _ => None,
        })
        .collect()
}

fn grp(tier: PinTier, id: &str, tracks: &[(&str, u64)]) -> PinGroup {
    PinGroup {
        kind: if tier == PinTier::Song { PinKind::Song } else { PinKind::Album },
        id: id.to_string(),
        name: format!("name-{id}"),
        tier,
        songs: tracks
            .iter()
            .map(|(t, size)| song(t, *size, "flac", Some("2024-05-01T12:00:00Z")))
            .collect(),
    }
}

fn aged_song(id: &str, size: u64, days_ago: Option<u32>) -> Song {
    let mut s = song(id, size, "flac", Some("2024-05-01T12:00:00Z"));
    match days_ago {
        None => {
            s.play_count = None;
            s.played = None;
        }
        Some(d) => {
            s.play_count = Some(1);
            let at = NOW_TEST.saturating_sub(d as u64 * 86_400);
            s.played = Some(
                chrono::DateTime::from_timestamp(at as i64, 0)
                    .expect("a representable test instant")
                    .to_rfc3339(),
            );
        }
    }
    s
}

fn aged_grp(
    tier: PinTier,
    id: &str,
    tracks: &[(&str, u64)],
    ages: &[Option<u32>],
) -> PinGroup {
    assert_eq!(tracks.len(), ages.len(), "one age per track");
    PinGroup {
        kind: if tier == PinTier::Song { PinKind::Song } else { PinKind::Album },
        id: id.to_string(),
        name: format!("name-{id}"),
        tier,
        songs: tracks
            .iter()
            .zip(ages)
            .map(|((t, size), age)| aged_song(t, *size, *age))
            .collect(),
    }
}

fn hot_grp(tier: PinTier, id: &str, tracks: &[(&str, u64)]) -> PinGroup {
    let ages: Vec<Option<u32>> = tracks.iter().map(|_| Some(0)).collect();
    aged_grp(tier, id, tracks, &ages)
}

fn pinned_entry(id: &str, size: u64, last_played: u64) -> IndexEntry {
    let mut e = entry(id, size, last_played);
    e.pinned = true;
    e
}

fn dl_ids(plan: &[StoreAction]) -> Vec<String> {
    dls(plan).into_iter().map(|(id, _)| id).collect()
}

fn mixed_pin_set() -> PinSet {
    PinSet {
        groups: vec![
            aged_grp(
                PinTier::Album,
                "al-fresh",
                &[("af1", 100), ("af2", 120), ("af3", 90)],
                &[Some(2), Some(5), Some(1)],
            ),
            aged_grp(
                PinTier::Album,
                "al-half",
                &[("ah1", 200), ("ah2", 30), ("ah3", 70)],
                &[Some(120), Some(3), Some(9)],
            ),
            aged_grp(
                PinTier::Album,
                "al-neglected",
                &[("an1", 150), ("an2", 150)],
                &[None, Some(300)],
            ),
            aged_grp(PinTier::Song, "so-old", &[("s1", 80)], &[Some(95)]),
            aged_grp(PinTier::Song, "so-new", &[("s2", 60)], &[Some(4)]),
            aged_grp(
                PinTier::Artist,
                "ar-a",
                &[("r1", 110), ("r2", 40)],
                &[None, Some(58)],
            ),
            aged_grp(PinTier::Artist, "ar-b", &[("r3", 55)], &[Some(61)]),
        ],
    }
}

fn ranked_ids(status: &StoreStatus) -> Vec<&str> {
    status.frontier.iter().map(|g| g.id.as_str()).collect()
}

fn sweep_days(pins: &PinSet, max_bytes: u64, days: u64) -> (usize, usize, usize, Vec<String>) {
    let mut input = PassInput::new(PassMode::Full, max_bytes);
    input.download_batch = 64;
    input.pins = Some(pins.clone());
    let mut on_disk: Vec<IndexEntry> = Vec::new();
    let (mut downloads, mut evictions, mut reversals) = (0usize, 0usize, 0usize);
    let mut last_order: Vec<String> = Vec::new();
    let mut log: Vec<String> = Vec::new();
    for day in 0..days {
        input.now_unix = NOW_TEST + day * 86_400;
        input.entries = on_disk.clone();
        let (plan, status) = plan_pass_with_status(&input);
        let status = status.expect("status");
        let (mut got, mut gone) = (Vec::new(), Vec::new());
        for a in &plan {
            match a {
                StoreAction::Download { id, .. } => got.push(id.0.clone()),
                StoreAction::Evict(id) => gone.push(id.0.clone()),
                _ => {}
            }
        }
        downloads += got.len();
        evictions += gone.len();
        if !got.is_empty() || !gone.is_empty() {
            log.push(format!("day {day}: downloaded {got:?}, evicted {gone:?}"));
        }
        on_disk.retain(|e| !gone.contains(&e.id.0));
        for id in &got {
            let size = pins
                .songs()
                .into_iter()
                .find(|s| &s.id.0 == id)
                .and_then(|s| s.size)
                .unwrap_or(0);
            on_disk.push(pinned_entry(id, size, input.now_unix));
        }
        let order: Vec<String> = status.frontier.iter().map(|g| g.id.clone()).collect();
        if !last_order.is_empty() && order != last_order {
            reversals += 1;
            log.push(format!("day {day}: order {last_order:?} -> {order:?}"));
        }
        last_order = order;
    }
    (downloads, evictions, reversals, log)
}

#[test]
fn plan_pass_over_an_empty_store_with_nothing_wanted_is_empty() {
    let plan = plan_pass(&PassInput::new(PassMode::Full, 1 << 30));
    assert_eq!(plan, Vec::new(), "no divergence, no actions");
    assert_eq!(plan_pass(&PassInput::new(PassMode::Light, 1 << 30)), Vec::new());
}

#[test]
fn plan_pass_full_housekeeping_comes_before_everything_else() {
    let mut input = PassInput::new(PassMode::Full, 1 << 30);
    input.stale_tmps = vec!["/s/tmp.9.0".to_string()];
    input.orphan_audio = vec!["/s/orphan.flac".to_string()];
    input.orphan_sidecars = vec![(sid("bad"), DeleteReason::CorruptSidecar)];
    input.window = vec![sid("want")];
    let plan = plan_pass(&input);
    assert_eq!(
        plan,
        vec![
            StoreAction::SweepTmp("/s/tmp.9.0".to_string()),
            StoreAction::DeleteFile("/s/orphan.flac".to_string()),
            StoreAction::DeleteEntry { id: sid("bad"), reason: DeleteReason::CorruptSidecar },
            StoreAction::Download { id: sid("want"), reason: DownloadReason::Window },
        ],
        "sweep, then orphans, then invalid entries, then work"
    );
}

#[test]
fn plan_pass_missing_pins_backfill_newest_starred_first() {
    let mut input = PassInput::new(PassMode::Full, 1 << 30);
    input.pins = Some(PinSet::of_songs(vec![
        song("newest", 10, "flac", None),
        song("middle", 10, "flac", None),
        song("oldest", 10, "flac", None),
    ]));
    input.download_batch = 2;
    let plan = plan_pass(&input);
    assert_eq!(
        dls(&plan),
        vec![
            ("newest".to_string(), DownloadReason::Backfill),
            ("middle".to_string(), DownloadReason::Backfill),
        ],
        "newest-first, bounded by the batch"
    );
    assert!(plan.iter().all(|a| matches!(a, StoreAction::Download { .. })));
}

#[test]
fn plan_pass_fingerprint_drift_marks_stale_and_keeps_serving() {
    for (label, server) in [
        ("size", song("a", 999, "flac", Some("2024-05-01T12:00:00Z"))),
        ("suffix", song("a", 100, "mp3", Some("2024-05-01T12:00:00Z"))),
        ("created", song("a", 100, "flac", Some("2025-01-01T00:00:00Z"))),
    ] {
        let mut e = entry("a", 100, 0);
        e.pinned = true;
        let mut input = PassInput::new(PassMode::Full, 1 << 30);
        input.entries = vec![e];
        input.pins = Some(PinSet::of_songs(vec![server]));
        let plan = plan_pass(&input);
        assert!(
            plan.contains(&StoreAction::SetStale { id: sid("a"), stale: true }),
            "{label} drift must mark stale"
        );
        assert_eq!(
            dls(&plan),
            vec![("a".to_string(), DownloadReason::Stale)],
            "{label} drift schedules a replacement"
        );
        assert!(
            !plan.iter().any(|a| matches!(
                a,
                StoreAction::DeleteEntry { .. } | StoreAction::Evict(_) | StoreAction::DeleteFile(_)
            )),
            "{label} drift must NEVER delete - keep-until-replaced"
        );
    }
}

#[test]
fn plan_pass_confirmed_fingerprint_clears_a_previous_stale_mark() {
    let mut e = entry("a", 100, 0);
    e.pinned = true;
    e.stale = true;
    let mut input = PassInput::new(PassMode::Full, 1 << 30);
    input.entries = vec![e];
    input.pins = Some(PinSet::of_songs(vec![song("a", 100, "flac", Some("2024-05-01T12:00:00Z"))]));
    let plan = plan_pass(&input);
    assert!(plan.contains(&StoreAction::SetStale { id: sid("a"), stale: false }));
    assert_eq!(dls(&plan), vec![("a".to_string(), DownloadReason::Stale)]);
    let mut e = entry("a", 100, 0);
    e.pinned = true;
    let mut input = PassInput::new(PassMode::Full, 1 << 30);
    input.entries = vec![e];
    input.pins = Some(PinSet::of_songs(vec![song("a", 100, "flac", Some("2024-05-01T14:00:00+02:00"))]));
    let plan = plan_pass(&input);
    assert_eq!(plan, Vec::new(), "same instant, different rendering => no work");
}

#[test]
fn plan_pass_unknown_server_fingerprint_is_not_drift() {
    let mut e = entry("a", 100, 0);
    e.pinned = true;
    for mut server in [
        song("a", 100, "flac", None),
        song("a", 100, "flac", Some("2024-05-01T12:00:00Z")),
    ] {
        for drop_field in 0..3 {
            match drop_field {
                0 => server.size = None,
                1 => server.suffix = None,
                _ => {}
            }
            let mut input = PassInput::new(PassMode::Full, 1 << 30);
            input.entries = vec![e.clone()];
            input.pins = Some(PinSet::of_songs(vec![server.clone()]));
            let plan = plan_pass(&input);
            assert!(
                !plan.iter().any(|a| matches!(a, StoreAction::SetStale { stale: true, .. })),
                "an unknown fingerprint must not read as drift"
            );
        }
    }
}

#[test]
fn plan_pass_demotes_what_left_the_pin_set_and_promotes_what_joined() {
    let mut pinned = entry("was-starred", 100, 0);
    pinned.pinned = true;
    let unpinned = entry("now-starred", 100, 0);
    let mut input = PassInput::new(PassMode::Full, 1 << 30);
    input.entries = vec![pinned, unpinned];
    input.pins = Some(PinSet::of_songs(vec![song("now-starred", 100, "flac", Some("2024-05-01T12:00:00Z"))]));
    let plan = plan_pass(&input);
    assert!(plan.contains(&StoreAction::SetPinned { id: sid("was-starred"), pinned: false }));
    assert!(plan.contains(&StoreAction::SetPinned { id: sid("now-starred"), pinned: true }));
    assert!(
        !plan.iter().any(|a| matches!(
            a,
            StoreAction::DeleteEntry { .. } | StoreAction::Evict(_)
        )),
        "a demote never deletes; only budget pressure reclaims"
    );
    assert_eq!(dls(&plan), Vec::new(), "both are already cached");
}

#[test]
fn plan_pass_transient_pin_failure_skips_all_verdicts() {
    let mut a = entry("pinned-and-gone-from-server", 100, 0);
    a.pinned = true;
    let mut b = entry("stale-already", 100, 0);
    b.pinned = true;
    b.stale = true;
    let mut input = PassInput::new(PassMode::Full, 1 << 30);
    input.entries = vec![a, b];
    input.pins = None;
    input.window = vec![sid("wanted")];
    let plan = plan_pass(&input);
    assert!(
        !plan.iter().any(|a| matches!(
            a,
            StoreAction::SetStale { .. } | StoreAction::SetPinned { .. }
                | StoreAction::DeleteEntry { .. } | StoreAction::Evict(_)
        )),
        "no verdicts without an authoritative pin set: {plan:?}"
    );
    assert_eq!(
        dls(&plan),
        vec![
            ("wanted".to_string(), DownloadReason::Window),
            ("stale-already".to_string(), DownloadReason::Stale),
        ]
    );
}

#[test]
fn plan_pass_suspect_replacement_is_first_and_never_a_delete() {
    let mut suspect = entry("suspect", 100, 0);
    suspect.suspect = true;
    suspect.pinned = true;
    let mut input = PassInput::new(PassMode::Full, 1 << 30);
    input.entries = vec![suspect];
    input.window = vec![sid("window-want")];
    input.pins = Some(PinSet::of_songs(vec![
        song("backfill-want", 100, "flac", None),
        song("suspect", 100, "flac", Some("2024-05-01T12:00:00Z")),
    ]));
    let plan = plan_pass(&input);
    assert_eq!(
        dls(&plan),
        vec![
            ("suspect".to_string(), DownloadReason::Suspect),
            ("window-want".to_string(), DownloadReason::Window),
            ("backfill-want".to_string(), DownloadReason::Backfill),
        ],
        "suspect gates a de-offered song's return, so it goes first"
    );
    assert!(!plan.iter().any(|a| matches!(
        a,
        StoreAction::DeleteEntry { .. } | StoreAction::Evict(_)
    )));
}

#[test]
fn plan_pass_light_mode_scopes_to_window_and_suspect_only() {
    let mut suspect = entry("suspect", 100, 0);
    suspect.suspect = true;
    let mut stale = entry("stale", 100, 0);
    stale.stale = true;
    let mut dirty = entry("dirty", 100, 5);
    dirty.recency_dirty = true;
    let mut input = PassInput::new(PassMode::Light, 150);
    input.entries = vec![suspect, stale, dirty];
    input.window = vec![sid("wanted")];
    input.pins = Some(PinSet::of_songs(vec![song("unseen-pin", 100, "flac", None)]));
    input.stale_tmps = vec!["/s/tmp.9.0".to_string()];
    input.orphan_audio = vec!["/s/orphan.flac".to_string()];
    input.orphan_sidecars = vec![(sid("bad"), DeleteReason::CorruptSidecar)];
    let plan = plan_pass(&input);
    assert_eq!(
        plan,
        vec![
            StoreAction::Download { id: sid("suspect"), reason: DownloadReason::Suspect },
            StoreAction::Download { id: sid("wanted"), reason: DownloadReason::Window },
        ],
        "a light pass executes only what the user is about to hear"
    );
}

#[test]
fn plan_pass_defer_bulk_keeps_window_and_suspect_work_moving() {
    let mut suspect = entry("suspect", 100, 0);
    suspect.suspect = true;
    let mut stale = entry("stale", 100, 0);
    stale.stale = true;
    let mut input = PassInput::new(PassMode::Full, 1 << 30);
    input.entries = vec![suspect, stale];
    input.window = vec![sid("wanted")];
    input.pins = Some(PinSet::of_songs(vec![song("backfill", 100, "flac", None)]));
    input.defer_bulk = true;
    assert_eq!(
        dls(&plan_pass(&input)),
        vec![
            ("suspect".to_string(), DownloadReason::Suspect),
            ("wanted".to_string(), DownloadReason::Window),
        ]
    );
    input.defer_bulk = false;
    assert_eq!(
        dls(&plan_pass(&input)),
        vec![
            ("suspect".to_string(), DownloadReason::Suspect),
            ("wanted".to_string(), DownloadReason::Window),
            ("stale".to_string(), DownloadReason::Stale),
            ("backfill".to_string(), DownloadReason::Backfill),
        ],
        "and the full priority order once playback is local"
    );
}

#[test]
fn plan_pass_dedupes_by_id_keeping_the_highest_priority_reason() {
    let mut e = entry("everything", 100, 0);
    e.suspect = true;
    e.stale = true;
    e.pinned = true;
    let mut input = PassInput::new(PassMode::Full, 1 << 30);
    input.entries = vec![e];
    input.window = vec![sid("everything")];
    input.pins = Some(PinSet::of_songs(vec![song("everything", 999, "flac", None)]));
    assert_eq!(
        dls(&plan_pass(&input)),
        vec![("everything".to_string(), DownloadReason::Suspect)]
    );
    let mut input = PassInput::new(PassMode::Full, 1 << 30);
    input.window = vec![sid("both")];
    input.pins = Some(PinSet::of_songs(vec![song("both", 100, "flac", None)]));
    assert_eq!(dls(&plan_pass(&input)), vec![("both".to_string(), DownloadReason::Window)]);
}

#[test]
fn plan_pass_never_plans_work_for_an_unstorable_id() {
    let mut input = PassInput::new(PassMode::Full, 1 << 30);
    input.window = vec![SongId("../evil".into()), SongId("".into()), sid("ok")];
    input.pins = Some(PinSet::of_songs(vec![song("a/b", 100, "flac", None)]));
    assert_eq!(dls(&plan_pass(&input)), vec![("ok".to_string(), DownloadReason::Window)]);
}

#[test]
fn plan_pass_batch_bound_caps_a_huge_backlog() {
    let mut input = PassInput::new(PassMode::Full, 1 << 30);
    input.pins = Some(PinSet::of_songs(
        (0..50).map(|i| song(&format!("p{i:02}"), 10, "flac", None)).collect(),
    ));
    input.download_batch = 4;
    assert_eq!(dls(&plan_pass(&input)).len(), 4);
    let mut input = PassInput::new(PassMode::Full, 1 << 30);
    input.entries = (0..10)
        .map(|i| {
            let mut e = entry(&format!("s{i}"), 10, 0);
            e.suspect = true;
            e
        })
        .collect();
    input.download_batch = 3;
    assert_eq!(dls(&plan_pass(&input)).len(), 3);
    input.download_batch = 0;
    input.stale_tmps = vec!["/s/tmp.1.0".to_string()];
    let plan = plan_pass(&input);
    assert_eq!(dls(&plan), Vec::new());
    assert_eq!(plan, vec![StoreAction::SweepTmp("/s/tmp.1.0".to_string())]);
}

#[test]
fn plan_pass_under_the_cap_evicts_nothing() {
    let mut input = PassInput::new(PassMode::Full, 300);
    input.entries = vec![entry("a", 100, 1), entry("b", 100, 2)];
    assert_eq!(evictions(&plan_pass(&input)), Vec::<String>::new());
    input.max_bytes = 200;
    assert_eq!(evictions(&plan_pass(&input)), Vec::<String>::new());
}

#[test]
fn plan_pass_evicts_oldest_last_played_first_and_only_as_far_as_needed() {
    let mut input = PassInput::new(PassMode::Full, 250);
    input.entries = vec![
        entry("newest", 100, 300),
        entry("oldest", 100, 100),
        entry("middle", 100, 200),
    ];
    assert_eq!(evictions(&plan_pass(&input)), vec!["oldest".to_string()]);
    input.max_bytes = 150;
    assert_eq!(evictions(&plan_pass(&input)), vec!["oldest".to_string(), "middle".to_string()]);
    input.max_bytes = 64;
    assert_eq!(
        evictions(&plan_pass(&input)),
        vec!["oldest".to_string(), "middle".to_string(), "newest".to_string()]
    );
}

#[test]
fn plan_pass_eviction_order_is_deterministic_under_a_recency_tie() {
    let mut input = PassInput::new(PassMode::Full, 100);
    input.entries = vec![entry("zeta", 100, 5), entry("alpha", 100, 5), entry("mid", 100, 5)];
    let first = evictions(&plan_pass(&input));
    assert_eq!(first, vec!["alpha".to_string(), "mid".to_string()]);
    input.entries.reverse();
    assert_eq!(evictions(&plan_pass(&input)), first, "order of input does not matter");
}

#[test]
fn plan_pass_eviction_never_touches_the_window_or_the_skip_target() {
    let mut pinned = entry("pinned", 100, 0);
    pinned.pinned = true;
    let mut input = PassInput::new(PassMode::Full, 400);
    input.entries = vec![
        pinned,
        entry("current", 100, 0),
        entry("upcoming", 100, 0),
        entry("skip-target", 100, 0),
        entry("evictable", 100, 999),
    ];
    input.window = vec![sid("current"), sid("upcoming")];
    input.protected = vec![sid("skip-target")];
    input.pins = Some(PinSet::of_songs(vec![song("pinned", 100, "flac", Some("2024-05-01T12:00:00Z"))]));
    let plan = plan_pass(&input);
    assert_eq!(
        evictions(&plan),
        vec!["evictable".to_string()],
        "the opportunistic entry goes first, despite being the NEWEST"
    );
    input.max_bytes = 50;
    let plan = plan_pass(&input);
    assert_eq!(
        evictions(&plan),
        vec!["evictable".to_string(), "pinned".to_string()],
        "opportunistic first, then the deferred pin - and never the window"
    );
}

#[test]
fn plan_pass_never_downloads_and_evicts_the_same_id() {
    for (tag, mut e) in [
        ("suspect", {
            let mut e = entry("s", 100, 0);
            e.suspect = true;
            e
        }),
        ("stale", {
            let mut e = entry("s", 100, 0);
            e.stale = true;
            e
        }),
    ] {
        e.pinned = false;
        let mut input = PassInput::new(PassMode::Full, 50);
        input.entries = vec![e];
        let plan = plan_pass(&input);
        assert!(
            !dls(&plan).is_empty(),
            "{tag}: the replacement is still scheduled"
        );
        assert_eq!(
            evictions(&plan),
            Vec::<String>::new(),
            "{tag}: an id this pass is downloading must not also be evicted"
        );
    }
    let mut suspect = entry("s", 100, 0);
    suspect.suspect = true;
    let mut input = PassInput::new(PassMode::Full, 50);
    input.entries = vec![suspect, entry("cold", 100, 1)];
    let plan = plan_pass(&input);
    assert_eq!(dls(&plan), vec![("s".to_string(), DownloadReason::Suspect)]);
    assert_eq!(evictions(&plan), vec!["cold".to_string()]);
    let mut settled = PassInput::new(PassMode::Full, 50);
    settled.entries = vec![entry("s", 100, 0)];
    assert_eq!(evictions(&plan_pass(&settled)), vec!["s".to_string()]);
}

#[test]
fn plan_pass_demoted_entries_become_evictable_in_the_same_pass() {
    let mut was_pinned = entry("was-starred", 200, 0);
    was_pinned.pinned = true;
    let mut still_pinned = entry("still-starred", 100, 0);
    still_pinned.pinned = true;
    let mut input = PassInput::new(PassMode::Full, 150);
    input.entries = vec![was_pinned, still_pinned];
    input.pins = Some(PinSet::of_songs(vec![song("still-starred", 100, "flac", Some("2024-05-01T12:00:00Z"))]));
    let plan = plan_pass(&input);
    assert!(plan.contains(&StoreAction::SetPinned { id: sid("was-starred"), pinned: false }));
    assert_eq!(evictions(&plan), vec!["was-starred".to_string()]);
    input.pins = None;
    assert_eq!(evictions(&plan_pass(&input)), Vec::<String>::new());
}

#[test]
fn plan_pass_pins_exceeding_the_ceiling_are_deferred_by_name_not_halted() {
    let mut a = entry("pin-a", 100, 0);
    a.pinned = true;
    let mut input = PassInput::new(PassMode::Full, 150);
    input.entries = vec![a];
    input.pins = Some(PinSet::of_songs(vec![
        song("pin-a", 100, "flac", Some("2024-05-01T12:00:00Z")),
        song("pin-b", 100, "flac", Some("2024-05-01T12:00:00Z")),
    ]));
    input.window = vec![sid("must-have")];
    let (plan, status) = plan_pass_with_status(&input);
    let status = status.expect("a full pass with pins publishes a status");
    assert_eq!(status.resident_tracks, 1);
    let deferred: Vec<&RankedGroup> = status.deferred();
    assert_eq!(
        deferred.iter().map(|d| d.id.as_str()).collect::<Vec<_>>(),
        vec!["pin-b"],
        "the shortfall is a NAMED group, not an integer"
    );
    assert_eq!(deferred[0].missing_tracks, 1);
    assert_eq!(deferred[0].missing_bytes, 100);
    assert_eq!(status.frontier.len(), 2);
    assert_eq!(status.deferred_count(), 1);
    assert_eq!(
        dls(&plan),
        vec![("must-have".to_string(), DownloadReason::Window)],
        "a deferred group is never fetched, but the window always is"
    );
    assert_eq!(evictions(&plan), Vec::<String>::new());
}

#[test]
fn the_hand_picked_floor_keeps_starred_songs_the_neglect_order_would_drop() {
    let mut input = PassInput::new(PassMode::Full, 100);
    input.now_unix = NOW_TEST;
    input.download_batch = 16;
    let pins = PinSet {
        groups: vec![
            aged_grp(PinTier::Album, "al-1", &[("a1", 30), ("a2", 30)], &[Some(200), Some(200)]),
            hot_grp(PinTier::Song, "so-1", &[("sng-a", 10)]),
            hot_grp(PinTier::Song, "so-2", &[("sng-b", 10)]),
            hot_grp(PinTier::Song, "so-3", &[("sng-c", 10)]),
        ],
    };
    input.pins = Some(pins.clone());
    let got = dl_ids(&plan_pass(&input));
    for id in ["sng-a", "sng-b", "sng-c"] {
        assert!(got.iter().any(|d| d == id), "{id} kept by the floor, got {got:?}");
    }

    let ceiling = pin_ceiling(input.max_bytes);
    assert!(star_floor(ceiling) >= 30, "the floor must fit all three songs here");
    let held: Vec<IndexEntry> = Vec::new();
    let f = Frontier::build(&pins, &held, ceiling, NOW_TEST);
    let ranked = f.ranked_groups();
    assert!(
        ranked
            .iter()
            .any(|g| g.tier != PinTier::Song && g.held_back_by_floor),
        "and whatever the reservation refused SAYS the reservation refused it, \
         rather than printing a shortfall against a ceiling that had room"
    );
}

#[test]
fn a_play_count_with_no_stamp_is_a_gap_in_the_records_not_neglect() {
    let mut s = aged_song("x", 10, None);
    assert!(is_cold(&s, NOW_TEST), "no stamp AND no plays really is neglect");
    s.play_count = Some(4);
    assert!(!is_cold(&s, NOW_TEST), "but a play count is a record that it was played");

    let g = PinGroup { songs: vec![s], ..grp(PinTier::Album, "al", &[]) };
    let sc = GroupScore::of(&g, &vec![SizeEntry { id: "x".to_string(), bytes: 10 }], NOW_TEST);
    assert_eq!(sc.never_played, 0, "and the printed evidence agrees with the verdict");
    assert_eq!(sc.cold_decile, 0);
    assert_eq!(sc.plays, 4);
}

#[test]
fn at_equal_neglect_an_album_leads_a_loose_song_and_the_artist_fan_out_is_last() {
    let cold = |tier, id, track| aged_grp(tier, id, &[(track, 10)], &[Some(200)]);
    let mut input = PassInput::new(PassMode::Full, 1 << 30);
    input.now_unix = NOW_TEST;
    input.download_batch = 16;
    input.pins = Some(PinSet {
        groups: vec![
            cold(PinTier::Artist, "ar-1", "art-a"),
            cold(PinTier::Album, "al-1", "alb-a"),
            cold(PinTier::Song, "so-1", "sng-a"),
            cold(PinTier::Artist, "ar-2", "art-b"),
            cold(PinTier::Album, "al-2", "alb-b"),
            cold(PinTier::Song, "so-2", "sng-b"),
        ],
    });
    assert_eq!(
        dl_ids(&plan_pass(&input)),
        vec!["alb-a", "alb-b", "sng-a", "sng-b", "art-a", "art-b"],
        "albums, then loose starred songs, then the artist fan-out; within a tier, starred order"
    );

    input.pins = Some(PinSet {
        groups: vec![
            hot_grp(PinTier::Artist, "ar-1", &[("art-a", 10)]),
            hot_grp(PinTier::Album, "al-1", &[("alb-a", 10)]),
            hot_grp(PinTier::Song, "so-1", &[("sng-a", 10)]),
            hot_grp(PinTier::Album, "al-2", &[("alb-b", 10)]),
            hot_grp(PinTier::Song, "so-2", &[("sng-b", 10)]),
        ],
    });
    assert_eq!(
        dl_ids(&plan_pass(&input)),
        vec!["sng-a", "sng-b", "alb-a", "alb-b", "art-a"],
        "with NOTHING neglected the loose starred songs lead - and the unbounded \
         artist fan-out is still last"
    );

    input.pins = Some(PinSet {
        groups: vec![
            hot_grp(PinTier::Song, "so-1", &[("sng-a", 10)]),
            aged_grp(PinTier::Album, "al-1", &[("alb-a", 10)], &[Some(200)]),
            aged_grp(PinTier::Song, "so-2", &[("sng-b", 10)], &[Some(200)]),
            hot_grp(PinTier::Album, "al-2", &[("alb-b", 10)]),
        ],
    });
    assert_eq!(
        dl_ids(&plan_pass(&input)),
        vec!["alb-a", "sng-b", "sng-a", "alb-b"],
        "the two COLD groups rank by the ask (album, then song) and both lead the \
         two fresh ones, which rank song-first among themselves"
    );
}

#[test]
fn the_artist_fan_out_is_floored_however_neglected_it_is() {
    let mut input = PassInput::new(PassMode::Full, 1 << 30);
    input.now_unix = NOW_TEST;
    input.download_batch = 16;
    input.pins = Some(PinSet {
        groups: vec![
            aged_grp(PinTier::Artist, "ar", &[("art-a", 10)], &[None]),
            hot_grp(PinTier::Song, "so", &[("sng-a", 10)]),
            hot_grp(PinTier::Album, "al", &[("alb-a", 10)]),
        ],
    });
    let (plan, status) = plan_pass_with_status(&input);
    let status = status.expect("status");
    assert_eq!(
        dl_ids(&plan),
        vec!["sng-a", "alb-a", "art-a"],
        "the never-played artist album is still LAST, behind two tracks played today"
    );
    let by = |id: &str| status.frontier.iter().find(|g| g.id == id).unwrap().clone();
    assert_eq!(by("ar").cold_decile, 10, "maximally neglected");
    assert_eq!(by("al").cold_decile, 0, "and it still loses to a decile 0 album");
    assert_eq!(by("ar").rank, 2);
}

#[test]
fn neglect_outranks_the_tier_within_the_hand_picked_class() {
    let mut input = PassInput::new(PassMode::Full, 1 << 30);
    input.now_unix = NOW_TEST;
    input.download_batch = 16;
    input.pins = Some(PinSet {
        groups: vec![
            hot_grp(PinTier::Album, "fresh-album", &[("fa-1", 10)]),
            aged_grp(PinTier::Song, "stale-song", &[("ss-1", 10)], &[Some(200)]),
        ],
    });
    assert_eq!(
        dl_ids(&plan_pass(&input)),
        vec!["ss-1", "fa-1"],
        "a song untouched for 200 days leads an album played today"
    );
    input.pins = Some(PinSet {
        groups: vec![
            aged_grp(PinTier::Song, "stale-song", &[("ss-1", 10)], &[Some(200)]),
            aged_grp(PinTier::Album, "stale-album", &[("sa-1", 10)], &[Some(70)]),
        ],
    });
    assert_eq!(
        dl_ids(&plan_pass(&input)),
        vec!["sa-1", "ss-1"],
        "both fully cold, so the ALBUM leads - and the 130-day gap between them does not speak"
    );
}

#[test]
fn the_cold_share_is_bytes_weighted_over_the_groups_own_tracks() {
    let mut input = PassInput::new(PassMode::Full, 1 << 30);
    input.now_unix = NOW_TEST;
    input.download_batch = 16;
    input.pins = Some(PinSet {
        groups: vec![
            aged_grp(
                PinTier::Album,
                "cold-in-the-small",
                &[("s1", 10), ("s2", 10), ("s3", 100), ("s4", 100)],
                &[Some(200), Some(200), Some(1), Some(1)],
            ),
            aged_grp(
                PinTier::Album,
                "cold-in-the-large",
                &[("l1", 10), ("l2", 10), ("l3", 100), ("l4", 100)],
                &[Some(1), Some(1), Some(200), Some(200)],
            ),
        ],
    });
    let (plan, status) = plan_pass_with_status(&input);
    let status = status.expect("status");
    let by = |id: &str| status.frontier.iter().find(|g| g.id == id).unwrap().clone();
    assert_eq!(by("cold-in-the-large").cold_decile, 9);
    assert_eq!(by("cold-in-the-small").cold_decile, 0);
    assert_eq!(
        by("cold-in-the-large").cold_tracks,
        2,
        "the same TRACK count as the other - only the bytes differ"
    );
    assert_eq!(by("cold-in-the-small").cold_tracks, 2);
    assert_eq!(
        dl_ids(&plan)[0],
        "l1",
        "the album whose neglected half is the BIG half goes first"
    );
}

#[test]
fn a_server_with_no_play_history_at_all_degrades_to_a_clean_tier_walk() {
    let mut input = PassInput::new(PassMode::Full, 1 << 30);
    input.now_unix = NOW_TEST;
    input.download_batch = 16;
    input.pins = Some(PinSet {
        groups: vec![
            aged_grp(PinTier::Artist, "ar-1", &[("art-a", 10)], &[None]),
            aged_grp(PinTier::Song, "so-1", &[("sng-a", 10)], &[None]),
            aged_grp(PinTier::Album, "al-1", &[("alb-a", 10)], &[None]),
            aged_grp(PinTier::Song, "so-2", &[("sng-b", 10)], &[None]),
            aged_grp(PinTier::Album, "al-2", &[("alb-b", 10)], &[None]),
        ],
    });
    let (plan, status) = plan_pass_with_status(&input);
    let status = status.expect("status");
    assert!(
        status.frontier.iter().all(|g| g.cold_decile == 10),
        "with no history anywhere, every group is wholly neglected"
    );
    assert_eq!(
        dl_ids(&plan),
        vec!["alb-a", "alb-b", "sng-a", "sng-b", "art-a"],
        "and the order is the tier walk, in pin-set position"
    );
    let g = status.frontier.iter().find(|g| g.id == "al-1").unwrap();
    assert_eq!(g.never_played, 1);
    assert_eq!(g.plays, 0);
    assert_eq!(g.last_played_days, None);
    assert_eq!(g.oldest_played_days, None);
}

#[test]
fn a_group_of_unknown_size_scores_zero_rather_than_dividing_by_zero() {
    let mut input = PassInput::new(PassMode::Full, 1 << 30);
    input.now_unix = NOW_TEST;
    input.download_batch = 16;
    let mut sizeless = aged_grp(PinTier::Album, "sizeless", &[("z1", 0), ("z2", 0)], &[None, None]);
    for s in &mut sizeless.songs {
        s.size = None;
    }
    input.pins = Some(PinSet { groups: vec![sizeless] });
    let (_, status) = plan_pass_with_status(&input);
    let status = status.expect("status");
    let g = &status.frontier[0];
    assert_eq!(g.bytes, 0);
    assert_eq!(g.cold_decile, 0, "no bytes, no share - and no divide by zero");
    assert_eq!(g.cold_tracks, 2, "the tracks are still honestly counted as cold");
}

#[test]
fn the_order_is_identical_between_passes_over_identical_input() {
    let mut input = PassInput::new(PassMode::Full, 900);
    input.now_unix = NOW_TEST;
    input.download_batch = 16;
    input.pins = Some(mixed_pin_set());

    let (plan_a, status_a) = plan_pass_with_status(&input);
    let status_a = status_a.expect("status");
    let (plan_b, status_b) = plan_pass_with_status(&input);
    let status_b = status_b.expect("status");
    assert_eq!(status_a, status_b, "same input, byte-identical self-description");
    assert_eq!(plan_a, plan_b, "and the identical plan");
    assert!(
        status_a.deferred_count() > 0 && status_a.resident_tracks > 0,
        "the ceiling must actually cut, or this proves nothing"
    );

    let mut shuffled = input.clone();
    let mut groups = mixed_pin_set().groups;
    groups.reverse();
    shuffled.pins = Some(PinSet { groups });
    let (_, status_c) = plan_pass_with_status(&shuffled);
    let status_c = status_c.expect("status");
    assert_eq!(
        ranked_ids(&status_c)
            .iter()
            .filter(|id| {
                status_c
                    .frontier
                    .iter()
                    .any(|g| &g.id == *id && g.standing == GroupStanding::Resident)
            })
            .count(),
        status_a
            .frontier
            .iter()
            .filter(|g| g.standing == GroupStanding::Resident)
            .count(),
        "the same groups are resident whatever order they arrived in"
    );
    let mut a_deferred: Vec<&str> = status_a.deferred().iter().map(|g| g.id.as_str()).collect();
    let mut c_deferred: Vec<&str> = status_c.deferred().iter().map(|g| g.id.as_str()).collect();
    a_deferred.sort_unstable();
    c_deferred.sort_unstable();
    assert_eq!(a_deferred, c_deferred, "and the same groups are refused");
}

#[test]
fn a_groups_neglect_only_ever_grows_and_never_falls_back_on_its_own() {
    let mut input = PassInput::new(PassMode::Full, 900);
    input.download_batch = 16;
    input.pins = Some(mixed_pin_set());

    let mut last_decile: std::collections::HashMap<String, u8> = Default::default();
    let mut moved = 0usize;
    for day in 0..400u64 {
        input.now_unix = NOW_TEST + day * 86_400;
        let (_, status) = plan_pass_with_status(&input);
        let status = status.expect("status");
        for g in &status.frontier {
            if let Some(prev) = last_decile.get(&g.id) {
                assert!(
                    g.cold_decile >= *prev,
                    "day {day}: {} fell from decile {prev} to {} - neglect is a \
                     one-way latch and must never reverse without a play",
                    g.id,
                    g.cold_decile
                );
                if g.cold_decile > *prev {
                    moved += 1;
                }
            }
            last_decile.insert(g.id.clone(), g.cold_decile);
        }
    }
    assert!(moved > 0, "the sweep must actually cross the line, or it proves nothing");
    assert!(moved <= 7 * 10, "a decile moved {moved} times - the latch is not latching");
}

#[test]
fn a_pair_that_ratchets_past_each_other_hands_over_once_not_forever() {
    let pins = PinSet {
        groups: vec![
            aged_grp(
                PinTier::Album,
                "A",
                &[("a1", 25), ("a2", 25), ("a3", 25), ("a4", 25)],
                &[Some(61), Some(50), Some(20), Some(10)],
            ),
            aged_grp(
                PinTier::Album,
                "B",
                &[("b1", 25), ("b2", 25), ("b3", 25), ("b4", 25)],
                &[Some(61), Some(55), Some(45), Some(15)],
            ),
        ],
    };
    let (downloads, evictions, reversals, log) = sweep_days(&pins, 134, 400);
    assert_eq!(
        reversals, 1,
        "the lead changed {reversals} times - it may change only on a STRICT \
         takeover, never on a tie the quantizer manufactured: {log:#?}"
    );
    assert_eq!(
        (downloads, evictions),
        (8, 4),
        "eight tracks, fetched once each, with one handover - not a cycle: {log:#?}"
    );
    let mut input = PassInput::new(PassMode::Full, 134);
    input.pins = Some(pins.clone());
    input.now_unix = NOW_TEST + 5 * 86_400;
    let status = plan_pass_with_status(&input).1.expect("status");
    assert_eq!(ranked_ids(&status), vec!["B", "A"]);
    assert!(status.frontier[0].cold_decile > status.frontier[1].cold_decile);
}

#[test]
fn nothing_the_mirror_holds_is_re_fetched_by_the_passage_of_time_alone() {
    let pins = mixed_pin_set();
    let (downloads, evictions, _, log) = sweep_days(&pins, 900, 400);
    let unique: usize = {
        let mut ids: Vec<&str> = pins.songs().iter().map(|s| s.id.0.as_str()).collect();
        ids.sort_unstable();
        ids.dedup();
        ids.len()
    };
    assert!(
        downloads <= unique,
        "{downloads} downloads for {unique} distinct tracks over 400 days - \
         something was fetched twice: {log:#?}"
    );
    assert_eq!(evictions, 0, "and nothing it fetched was ever taken back: {log:#?}");
    assert!(downloads > 0, "the sweep must actually fetch something, or it proves nothing");
}

#[test]
fn playing_a_track_is_the_one_thing_that_moves_a_group_down() {
    let mut input = PassInput::new(PassMode::Full, 1 << 30);
    input.now_unix = NOW_TEST;
    input.download_batch = 16;
    let neglected = |ages: &[Option<u32>]| {
        aged_grp(PinTier::Album, "al", &[("t1", 100), ("t2", 100)], ages)
    };
    input.pins = Some(PinSet {
        groups: vec![
            neglected(&[Some(300), Some(300)]),
            aged_grp(PinTier::Album, "other", &[("o1", 100), ("o2", 100)], &[Some(70), Some(1)]),
        ],
    });
    let (_, before) = plan_pass_with_status(&input);
    let before = before.expect("status");
    assert_eq!(ranked_ids(&before), vec!["al", "other"]);
    assert_eq!(before.frontier[0].cold_decile, 10);

    input.pins = Some(PinSet {
        groups: vec![
            neglected(&[Some(0), Some(0)]),
            aged_grp(PinTier::Album, "other", &[("o1", 100), ("o2", 100)], &[Some(70), Some(1)]),
        ],
    });
    let (_, after) = plan_pass_with_status(&input);
    let after = after.expect("status");
    assert_eq!(
        ranked_ids(&after),
        vec!["other", "al"],
        "playing it moved it DOWN, which is the only direction a play can move anything"
    );
    assert_eq!(after.frontier[1].cold_decile, 0);
}

#[test]
fn no_group_is_ever_half_admitted_at_any_score() {
    let pins = mixed_pin_set();
    let mut any_cut = false;
    for max_bytes in (100u64..1400).step_by(37) {
        let mut input = PassInput::new(PassMode::Full, max_bytes);
        input.now_unix = NOW_TEST;
        input.download_batch = 64;
        input.pins = Some(pins.clone());
        let (plan, status) = plan_pass_with_status(&input);
        let status = status.expect("status");
        let fetched: HashSet<String> = dl_ids(&plan).into_iter().collect();
        for g in &pins.groups {
            let got = g.songs.iter().filter(|s| fetched.contains(&s.id.0)).count();
            assert!(
                got == 0 || got == g.songs.len(),
                "budget {max_bytes}: group {} is HALF fetched ({got} of {})",
                g.id,
                g.songs.len()
            );
        }
        for d in status.deferred() {
            assert!(d.missing_bytes > 0, "budget {max_bytes}: {} names nothing", d.id);
            any_cut = true;
        }
    }
    assert!(any_cut, "the sweep must actually refuse something somewhere");
}

#[test]
fn the_reported_reason_is_the_key_the_comparator_sorted_on() {
    let mut input = PassInput::new(PassMode::Full, 900);
    input.now_unix = NOW_TEST;
    input.download_batch = 16;
    input.pins = Some(mixed_pin_set());
    input.entries = vec![pinned_entry("ah1", 200, 10), pinned_entry("s1", 80, 20)];
    let (_, status) = plan_pass_with_status(&input);
    let status = status.expect("status");

    let key = |g: &RankedGroup| {
        (
            g.tier.class(),
            10 - g.cold_decile,
            u8::from(!g.held),
            emphasis_rank(g.tier, g.cold_bytes > 0),
        )
    };
    for pair in status.frontier.windows(2) {
        assert!(
            key(&pair[0]) <= key(&pair[1]),
            "{} (rank {}) reports a WORSE key than {} below it: {:?} vs {:?}",
            pair[0].id,
            pair[0].rank,
            pair[1].id,
            key(&pair[0]),
            key(&pair[1])
        );
        assert_eq!(pair[1].rank, pair[0].rank + 1, "ranks are the positions, densely");
    }
    for g in &status.frontier {
        assert!(g.cold_tracks <= g.tracks);
        assert!(g.never_played <= g.cold_tracks);
        assert!(g.cold_bytes <= g.bytes);
        assert!(g.cold_decile <= 10);
        let expected = if g.bytes == 0 { 0 } else { (g.cold_bytes * 100 / g.bytes / 10) as u8 };
        assert_eq!(g.cold_decile, expected, "{}: the decile follows from the bytes", g.id);
        if let (Some(last), Some(oldest)) = (g.last_played_days, g.oldest_played_days) {
            assert!(last <= oldest, "{}: freshest cannot be older than stalest", g.id);
        }
    }
}

#[test]
fn a_refused_group_names_what_it_lost_to_and_by_how_much() {
    let mut input = PassInput::new(PassMode::Full, 400);
    input.now_unix = NOW_TEST;
    input.download_batch = 16;
    input.pins = Some(PinSet {
        groups: vec![
            aged_grp(PinTier::Album, "winner", &[("w1", 200)], &[Some(300)]),
            aged_grp(PinTier::Album, "loser", &[("l1", 75), ("l2", 75)], &[Some(300), Some(300)]),
        ],
    });
    let (_, status) = plan_pass_with_status(&input);
    let status = status.expect("status");
    let loser = status.frontier.iter().find(|g| g.id == "loser").unwrap();
    assert_eq!(loser.standing, GroupStanding::Deferred);
    assert_eq!(loser.over_by, 50, "150 wanted against the 100 left under the ceiling");
    assert_eq!(
        loser.blocked_by.as_deref(),
        Some("name-winner"),
        "and it names the group that actually took the space"
    );
    let winner = status.frontier.iter().find(|g| g.id == "winner").unwrap();
    assert_eq!((winner.over_by, winner.blocked_by.clone()), (0, None));
}

#[test]
fn the_frontier_refuses_a_group_whole_and_keeps_walking_to_a_smaller_one() {
    let mut input = PassInput::new(PassMode::Full, 200);
    input.download_batch = 16;
    input.pins = Some(PinSet {
        groups: vec![
            grp(PinTier::Album, "huge", &[("h1", 100), ("h2", 100), ("h3", 100)]),
            grp(PinTier::Album, "small", &[("s1", 50), ("s2", 50)]),
        ],
    });
    let (plan, status) = plan_pass_with_status(&input);
    assert_eq!(
        dl_ids(&plan),
        vec!["s1", "s2"],
        "the big group is refused ENTIRE - never a partial album - and the walk continues"
    );
    let status = status.expect("a full pass with pins publishes a status");
    assert_eq!(status.resident_tracks, 2);
    assert_eq!(
        status
            .deferred()
            .iter()
            .map(|d| (d.id.as_str(), d.missing_tracks, d.missing_bytes))
            .collect::<Vec<_>>(),
        vec![("huge", 3, 300)],
        "and the shortfall is one NAMED album, not an integer"
    );
    let huge = status.frontier.iter().find(|g| g.id == "huge").unwrap();
    assert_eq!(huge.over_by, 150);
    assert_eq!(huge.blocked_by, None, "nothing was admitted before it to lose to");
    let small = status.frontier.iter().find(|g| g.id == "small").unwrap();
    assert_eq!(small.standing, GroupStanding::Resident);
    assert_eq!(small.over_by, 0, "a group that fitted missed by nothing");
}

#[test]
fn a_shared_track_is_charged_once_to_whichever_group_reaches_it_first() {
    let mut input = PassInput::new(PassMode::Full, 1 << 30);
    input.now_unix = NOW_TEST;
    input.download_batch = 16;
    input.pins = Some(PinSet {
        groups: vec![
            aged_grp(
                PinTier::Album,
                "al",
                &[("shared", 100), ("only-album", 100)],
                &[Some(200), Some(200)],
            ),
            aged_grp(PinTier::Song, "shared", &[("shared", 100)], &[Some(200)]),
        ],
    });
    let (plan, status) = plan_pass_with_status(&input);
    let status = status.expect("status");
    assert_eq!(
        status.tier_tracks[PinTier::Album as usize],
        2,
        "the album reached the shared track first and is charged for it"
    );
    assert_eq!(status.tier_tracks[PinTier::Song as usize], 0);
    assert_eq!(status.resident_tracks, 2, "and it is counted ONCE, not twice");
    assert_eq!(status.tier_bytes[PinTier::Album as usize], 200);
    assert_eq!(status.tier_bytes[PinTier::Song as usize], 0);
    assert_eq!(dl_ids(&plan), vec!["shared", "only-album"]);
    let sng = status.frontier.iter().find(|g| g.tier == PinTier::Song).unwrap();
    assert_eq!(sng.standing, GroupStanding::Covered);
    assert_eq!(sng.missing_tracks, 0);
    assert_eq!(status.deferred_count(), 0, "nothing is actually missing");
}

#[test]
fn a_track_only_a_deferred_group_wants_leaves_its_song_group_deferred_too() {
    let mut input = PassInput::new(PassMode::Full, 134);
    input.now_unix = NOW_TEST;
    input.download_batch = 16;
    input.pins = Some(PinSet {
        groups: vec![
            aged_grp(PinTier::Album, "winner", &[("w1", 100)], &[None]),
            aged_grp(PinTier::Album, "big", &[("shared", 100), ("other", 100)], &[None, None]),
            aged_grp(PinTier::Song, "shared-song", &[("shared", 100)], &[None]),
        ],
    });
    let (plan, status) = plan_pass_with_status(&input);
    let status = status.expect("status");
    assert_eq!(dl_ids(&plan), vec!["w1"], "only the one group fits");
    let by = |id: &str| status.frontier.iter().find(|g| g.id == id).unwrap().clone();
    assert_eq!(by("big").standing, GroupStanding::Deferred);
    assert_eq!(
        by("shared-song").standing,
        GroupStanding::Deferred,
        "its track is wanted by a group that lost too - that is missing, not covered"
    );
    assert_eq!(
        (by("shared-song").missing_tracks, by("shared-song").missing_bytes),
        (1, 100),
        "and it names its own shortfall rather than reporting zero"
    );
    let named: Vec<&str> = status.deferred().iter().map(|g| g.id.as_str()).collect();
    assert_eq!(named, vec!["big", "shared-song"], "BOTH are named, in frontier order");
    assert_eq!(status.deferred_count(), 2);
}

#[test]
fn a_group_evicted_from_below_the_line_is_never_re_admitted() {
    let mut input = PassInput::new(PassMode::Full, 400);
    input.now_unix = NOW_TEST;
    input.download_batch = 16;
    input.pins = Some(PinSet {
        groups: vec![
            hot_grp(PinTier::Album, "keep", &[("keep", 200)]),
            hot_grp(PinTier::Artist, "doomed", &[("d1", 75), ("d2", 75)]),
        ],
    });

    assert_eq!(
        dl_ids(&plan_pass(&input)),
        vec!["keep"],
        "the band below the ceiling is reserved for the window, not for pins that \
         happen to fit in it"
    );

    input.entries = vec![
        pinned_entry("keep", 200, 500),
        pinned_entry("d1", 75, 900),
        pinned_entry("d2", 75, 900),
        entry("window-bytes", 60, 5),
    ];
    input.window = vec![sid("window-bytes")];
    let plan = plan_pass(&input);
    let mut evicted = evictions(&plan);
    evicted.sort();
    assert_eq!(
        evicted,
        ["d1", "d2"],
        "the whole deferred group goes, and the resident song is untouched"
    );
    assert_eq!(dl_ids(&plan), Vec::<String>::new(), "nothing below the line is ever fetched");

    input.entries = vec![pinned_entry("keep", 200, 500), entry("window-bytes", 60, 5)];
    let plan = plan_pass(&input);
    assert_eq!(
        dl_ids(&plan),
        Vec::<String>::new(),
        "the loop is structurally impossible, not merely unlikely"
    );
    assert_eq!(evictions(&plan), Vec::<String>::new(), "and nothing further is reclaimed");
}

#[test]
fn eviction_takes_a_whole_group_and_never_a_member_a_higher_tier_claimed() {
    let mut input = PassInput::new(PassMode::Full, 200);
    input.pins = Some(PinSet {
        groups: vec![
            grp(PinTier::Song, "loved", &[("loved", 50)]),
            grp(PinTier::Artist, "ar", &[("loved", 50), ("a1", 50), ("a2", 50)]),
        ],
    });
    input.entries = vec![
        pinned_entry("loved", 50, 100),
        pinned_entry("a1", 50, 900),
        pinned_entry("a2", 50, 900),
    ];
    assert_eq!(evictions(&plan_pass(&input)), Vec::<String>::new());

    input.entries.push(entry("window-bytes", 100, 5));
    input.window = vec![sid("window-bytes")];
    let evicted = evictions(&plan_pass(&input));
    assert_eq!(
        evicted,
        vec!["a1".to_string(), "a2".to_string()],
        "the artist album goes WHOLE even though half of it would have sufficed, \
         and the starred song it shares is untouched"
    );
}

#[test]
fn eviction_walks_the_same_one_ordering_backwards() {
    let mut input = PassInput::new(PassMode::Full, 100);
    input.now_unix = NOW_TEST;
    input.pins = Some(PinSet {
        groups: vec![
            aged_grp(PinTier::Song, "sng", &[("sng", 100)], &[Some(200)]),
            aged_grp(PinTier::Album, "al", &[("alb", 100)], &[Some(200)]),
            aged_grp(PinTier::Artist, "ar", &[("art", 100)], &[Some(200)]),
        ],
    });
    input.entries = vec![
        entry("cold-but-recent", 100, 10_000),
        pinned_entry("sng", 100, 1),
        pinned_entry("alb", 100, 1),
        pinned_entry("art", 100, 1),
    ];
    assert_eq!(
        evictions(&plan_pass(&input)),
        vec![
            "cold-but-recent".to_string(),
            "art".to_string(),
            "sng".to_string(),
        ],
        "opportunistic, then the unbounded artist subscription, then - at equal \
         neglect - the loose starred song before the starred album"
    );

    input.pins = Some(PinSet {
        groups: vec![
            aged_grp(PinTier::Song, "sng", &[("sng", 100)], &[Some(200)]),
            hot_grp(PinTier::Album, "al", &[("alb", 100)]),
            hot_grp(PinTier::Artist, "ar", &[("art", 100)]),
        ],
    });
    assert_eq!(
        evictions(&plan_pass(&input)),
        vec![
            "cold-but-recent".to_string(),
            "art".to_string(),
            "alb".to_string(),
        ],
        "the 200-day-cold song now outranks the album, and removal agrees"
    );
}

#[test]
fn store_pause_stops_the_planner_from_scheduling_bulk_work() {
    let mut stale = pinned_entry("stale", 100, 1);
    stale.stale = true;
    let mut input = PassInput::new(PassMode::Full, 1 << 30);
    input.entries = vec![stale];
    input.window = vec![sid("about-to-play")];
    input.pins = Some(PinSet::of_songs(vec![
        song("stale", 100, "flac", Some("2024-05-01T12:00:00Z")),
        song("bulk", 100, "flac", Some("2024-05-01T12:00:00Z")),
    ]));
    assert_eq!(
        dls(&plan_pass(&input)),
        vec![
            ("about-to-play".to_string(), DownloadReason::Window),
            ("stale".to_string(), DownloadReason::Stale),
            ("bulk".to_string(), DownloadReason::Backfill),
        ],
        "unpaused, every category runs"
    );

    input.paused = true;
    assert_eq!(
        dls(&plan_pass(&input)),
        vec![("about-to-play".to_string(), DownloadReason::Window)],
        "paused, the bulk categories stop and the audible one does not"
    );
}

#[test]
fn a_breached_reserve_writes_nothing_at_all_and_only_deletes() {
    let mut suspect = pinned_entry("suspect", 100, 5);
    suspect.suspect = true;
    let mut input = PassInput::new(PassMode::Full, 0);
    input.entries = vec![suspect, pinned_entry("pin", 100, 5), entry("cold", 100, 1)];
    input.window = vec![sid("suspect"), sid("not-yet-cached")];
    input.pins = Some(PinSet::of_songs(vec![
        song("suspect", 100, "flac", Some("2024-05-01T12:00:00Z")),
        song("pin", 100, "flac", Some("2024-05-01T12:00:00Z")),
        song("wanted", 100, "flac", None),
    ]));
    let (plan, status) = plan_pass_with_status(&input);
    assert_eq!(
        dls(&plan),
        Vec::new(),
        "no download of ANY reason - not backfill, not the window, not a suspect"
    );
    assert_eq!(
        evictions(&plan),
        vec!["cold".to_string(), "pin".to_string()],
        "everything unprotected is reclaimed, coldest-standing first"
    );
    let status = status.expect("status");
    assert_eq!(status.waiting, StoreWaiting::ReserveBreached, "and it says why");
    assert_eq!(status.effective_max, 0);
}

#[test]
fn a_breached_reserve_writes_nothing_on_a_light_pass_either() {
    let mut suspect = entry("suspect", 100, 5);
    suspect.suspect = true;
    let mut input = PassInput::new(PassMode::Light, 0);
    input.entries = vec![suspect];
    input.window = vec![sid("suspect"), sid("not-yet-cached")];
    let plan = plan_pass(&input);
    assert_eq!(
        dls(&plan),
        Vec::new(),
        "a light pass on a breached reserve writes nothing either"
    );
    assert_eq!(evictions(&plan), Vec::<String>::new());
}

#[test]
fn opportunistic_bytes_are_reclaimed_to_admit_a_resident_pin_group() {
    let album = grp(PinTier::Album, "al", &[("t1", 150), ("t2", 150)]);
    let mut input = PassInput::new(PassMode::Full, 1000);
    input.entries = (0..10).map(|i| entry(&format!("c{i}"), 100, i as u64)).collect();
    input.pins = Some(PinSet { groups: vec![album] });
    let (plan, status) = plan_pass_with_status(&input);

    assert_eq!(
        dl_ids(&plan),
        vec!["t1".to_string(), "t2".to_string()],
        "the starred group is admitted, not starved"
    );
    assert_eq!(
        evictions(&plan),
        vec!["c0".to_string(), "c1".to_string(), "c2".to_string()],
        "exactly enough of the COLDEST cache to cover 300 bytes, LRU first"
    );
    let first_evict = plan
        .iter()
        .position(|a| matches!(a, StoreAction::Evict(_)))
        .expect("an eviction");
    let first_dl = plan
        .iter()
        .position(|a| matches!(a, StoreAction::Download { .. }))
        .expect("a download");
    assert!(
        first_evict < first_dl,
        "the reclaim must precede the download it paid for - the executor walks the list in order:\n{plan:#?}"
    );
    let status = status.expect("status");
    assert_eq!(status.pending_tracks, 2, "still pending, because the plan has not run yet");
    assert_eq!(status.waiting, StoreWaiting::NotWaiting);
}

#[test]
fn the_reclaim_is_all_or_nothing_and_never_takes_the_window_or_a_pin() {
    let held = grp(PinTier::Song, "s1", &[("held", 50)]);
    let wanted = grp(PinTier::Album, "al", &[("big", 700)]);
    let mut input = PassInput::new(PassMode::Full, 1000);
    input.entries =
        vec![pinned_entry("held", 50, 0), entry("win", 500, 1), entry("c0", 100, 2)];
    input.window = vec![sid("win")];
    input.pins = Some(PinSet { groups: vec![held, wanted] });
    let plan = plan_pass(&input);
    assert_eq!(
        dl_ids(&plan),
        Vec::<String>::new(),
        "350 wanted, only the 100-byte cold entry may be taken: refused"
    );
    assert_eq!(
        evictions(&plan),
        Vec::<String>::new(),
        "and NOTHING was deleted for it - not the window, not the held pin, not even the cold entry"
    );
}

#[test]
fn the_reclaim_never_takes_an_id_the_same_pass_is_downloading() {
    let album = grp(PinTier::Album, "al", &[("t1", 350)]);
    let mut input = PassInput::new(PassMode::Full, 1000);
    let mut suspect = entry("sus", 700, 1);
    suspect.suspect = true;
    input.entries = vec![suspect];
    input.pins = Some(PinSet { groups: vec![album] });
    let plan = plan_pass(&input);
    assert_eq!(
        dl_ids(&plan),
        vec!["sus".to_string()],
        "only the suspect replacement - the backfill found no donor it was allowed to take"
    );
    assert_eq!(evictions(&plan), Vec::<String>::new());
}

#[test]
fn an_album_leaving_the_pin_set_demotes_exactly_its_tracks_and_they_evict_at_once() {
    let album = grp(PinTier::Album, "al", &[("t1", 100), ("t2", 100), ("t3", 100)]);
    let mut input = PassInput::new(PassMode::Full, 1 << 30);
    input.entries = vec![
        pinned_entry("t1", 100, 1),
        pinned_entry("t2", 100, 1),
        pinned_entry("t3", 100, 1),
        pinned_entry("kept", 100, 1),
    ];
    input.pins = Some(PinSet {
        groups: vec![grp(PinTier::Song, "kept", &[("kept", 100)])],
    });
    let demoted: Vec<String> = plan_pass(&input)
        .into_iter()
        .filter_map(|a| match a {
            StoreAction::SetPinned { id, pinned: false } => Some(id.0),
            _ => None,
        })
        .collect();
    assert_eq!(
        demoted,
        vec!["t1".to_string(), "t2".to_string(), "t3".to_string()],
        "exactly the unstarred album's tracks demote, and the starred song does not"
    );

    input.max_bytes = 100;
    let evicted = evictions(&plan_pass(&input));
    assert_eq!(
        evicted,
        vec!["t1".to_string(), "t2".to_string(), "t3".to_string()],
        "demoted bytes are ordinary LRU candidates at once; the pin is still spared"
    );

    let mut restar = PassInput::new(PassMode::Full, 1 << 30);
    restar.entries = vec![entry("t1", 100, 1), entry("t2", 100, 1), entry("t3", 100, 1)];
    restar.pins = Some(PinSet { groups: vec![album] });
    let plan = plan_pass(&restar);
    assert_eq!(dls(&plan), Vec::new(), "re-starring re-downloads nothing");
    assert_eq!(
        plan.iter().filter(|a| matches!(a, StoreAction::SetPinned { pinned: true, .. })).count(),
        3,
        "it just re-promotes the bytes that never left"
    );
}

#[test]
fn a_server_flap_never_costs_a_starred_file_even_over_budget() {
    let mut input = PassInput::new(PassMode::Full, 100);
    input.pins = None;
    input.entries = vec![
        pinned_entry("starred", 100, 1),
        entry("opportunistic", 100, 2),
    ];
    assert_eq!(
        evictions(&plan_pass(&input)),
        vec!["opportunistic".to_string()],
        "the pin is untouchable while the pin set is unknown, even over budget"
    );
}

#[test]
fn plan_pass_budgets_bulk_downloads_against_the_bytes_on_disk_right_now() {
    let mut input = PassInput::new(PassMode::Full, 250);
    input.entries = vec![entry("old", 200, 1)];
    input.window = vec![sid("old")];
    input.pins = Some(PinSet::of_songs(vec![song("big", 100, "flac", None), song("small", 40, "flac", None)]));
    let plan = plan_pass(&input);
    assert_eq!(dls(&plan), vec![("small".to_string(), DownloadReason::Backfill)]);
    assert_eq!(evictions(&plan), Vec::<String>::new());
    let mut next = PassInput::new(PassMode::Full, 250);
    next.pins = input.pins.clone();
    assert_eq!(
        dls(&plan_pass(&next)),
        vec![("big".to_string(), DownloadReason::Backfill), ("small".to_string(), DownloadReason::Backfill)]
    );
}

#[test]
fn plan_pass_window_and_suspect_downloads_are_not_budget_gated() {
    let mut suspect = entry("suspect", 100, 0);
    suspect.suspect = true;
    suspect.pinned = true;
    let mut input = PassInput::new(PassMode::Full, 400);
    input.entries = vec![suspect, entry("in-window", 300, 0)];
    input.window = vec![sid("in-window"), sid("about-to-play")];
    input.pins = Some(PinSet::of_songs(vec![
        song("suspect", 100, "flac", Some("2024-05-01T12:00:00Z")),
        song("nice-to-have", 150, "flac", None),
    ]));
    let plan = plan_pass(&input);
    assert_eq!(
        dls(&plan),
        vec![
            ("suspect".to_string(), DownloadReason::Suspect),
            ("about-to-play".to_string(), DownloadReason::Window),
        ],
        "the audible work happens; the nice-to-have backfill is halted"
    );
    assert_eq!(evictions(&plan), Vec::<String>::new(), "and nothing was deleted for it");
}

#[test]
fn plan_pass_flushes_dirty_recency_on_full_passes_only() {
    let mut dirty = entry("bumped", 100, 777);
    dirty.recency_dirty = true;
    let clean = entry("untouched", 100, 5);
    let mut input = PassInput::new(PassMode::Full, 1 << 30);
    input.entries = vec![dirty, clean];
    assert_eq!(
        plan_pass(&input),
        vec![StoreAction::FlushRecency { id: sid("bumped"), last_played_unix: 777 }],
        "only the dirty entry is written, and only its recency"
    );
    input.mode = PassMode::Light;
    assert_eq!(plan_pass(&input), Vec::new());
}

#[test]
fn plan_pass_is_pure_and_repeatable() {
    let mut suspect = entry("suspect", 100, 1);
    suspect.suspect = true;
    let mut dirty = entry("dirty", 100, 2);
    dirty.recency_dirty = true;
    let mut input = PassInput::new(PassMode::Full, 150);
    input.entries = vec![suspect, dirty, entry("cold", 100, 0)];
    input.window = vec![sid("want")];
    input.protected = vec![sid("skip")];
    input.pins = Some(PinSet::of_songs(vec![song("newpin", 10, "flac", None)]));
    input.stale_tmps = vec!["/s/tmp.1.0".to_string()];
    let first = plan_pass(&input);
    assert_eq!(plan_pass(&input), first);
    assert_eq!(plan_pass(&input), first);
    assert!(!first.is_empty(), "the fixture must actually exercise something");
}

#[test]
fn plan_pass_handles_saturating_byte_totals_without_overflow() {
    let mut input = PassInput::new(PassMode::Full, 64);
    input.entries = vec![entry("a", u64::MAX, 1), entry("b", u64::MAX, 2)];
    assert_eq!(evictions(&plan_pass(&input)), vec!["a".to_string()]);
    input.pins = Some(PinSet::of_songs(vec![song("want", 10, "flac", None)]));
    let plan = plan_pass(&input);
    assert_eq!(dls(&plan), vec![("want".to_string(), DownloadReason::Backfill)]);
    assert_eq!(evictions(&plan), vec!["a".to_string()], "and it paid for it, once");
    input.pins = None;
    input.entries = vec![
        entry("x", u64::MAX / 2 + 1, 1),
        entry("y", u64::MAX / 2 + 1, 2),
        entry("z", 100, 3),
    ];
    assert!(!evictions(&plan_pass(&input)).is_empty());
}

#[test]
fn a_status_adds_up_whatever_the_budget() {
    for max_bytes in [0, 100, 400, 700, 1_000, 1_500, 4_000, u64::MAX] {
        let mut input = PassInput::new(PassMode::Full, max_bytes);
        input.now_unix = NOW_TEST;
        input.pins = Some(mixed_pin_set());
        input.entries = vec![pinned_entry("an1", 150, 0), pinned_entry("s1", 80, 0)];
        let (_, status) = plan_pass_with_status(&input);
        let s = status.expect("status");
        assert_eq!(s.cached_tracks + s.pending_tracks, s.resident_tracks, "{max_bytes}");
        assert_eq!(s.tier_tracks.iter().sum::<usize>(), s.resident_tracks, "{max_bytes}");
        assert!(s.resident_bytes <= pin_ceiling(max_bytes), "{max_bytes}");
    }
}

#[test]
fn everything_is_held_where_everything_fits() {
    // The set weighs 1255 bytes: the first budget whose ceiling reaches that defers nothing.
    let fits = (0u64..3_000).find(|m| pin_ceiling(*m) >= 1_255).expect("a budget that fits");
    for (max_bytes, all) in [(fits, true), (fits - 1, false)] {
        let mut input = PassInput::new(PassMode::Full, max_bytes);
        input.now_unix = NOW_TEST;
        input.pins = Some(mixed_pin_set());
        let (_, status) = plan_pass_with_status(&input);
        let s = status.expect("status");
        assert_eq!(s.deferred().is_empty(), all, "{max_bytes}");
        assert_eq!(s.resident_bytes == 1_255, all, "{max_bytes}");
    }
}

#[test]
fn a_settled_store_is_left_alone_and_each_divergence_is_seen() {
    let settled = || {
        let mut input = PassInput::new(PassMode::Full, 1 << 20);
        input.now_unix = NOW_TEST;
        input.pins = Some(PinSet { groups: vec![grp(PinTier::Album, "al", &[("a", 10), ("b", 20)])] });
        input.entries = vec![pinned_entry("a", 10, 1), pinned_entry("b", 20, 1), entry("c", 5, 1)];
        input.window = vec![sid("c"), sid("no/key")];
        input
    };
    assert_eq!(plan_pass(&settled()), Vec::new());
    let amiss: [fn(&mut PassInput); 8] = [
        |i| i.stale_tmps.push("/s/tmp.1.1".to_string()),
        |i| i.entries[0].suspect = true,
        |i| i.entries[0].stale = true,
        |i| i.entries[0].pinned = false,
        |i| i.entries[2].pinned = true,
        |i| i.entries[0].recency_dirty = true,
        |i| i.window.push(sid("d")),
        |i| i.entries.truncate(1),
    ];
    for (k, spoil) in amiss.iter().enumerate() {
        let mut input = settled();
        spoil(&mut input);
        assert!(!plan_pass(&input).is_empty(), "divergence {k} was passed over");
    }
}

#[test]
fn bulk_admission_never_takes_the_store_past_its_budget() {
    let sizes = [("c0", 50u64), ("c1", 50), ("c2", 50)];
    let mut input = PassInput::new(PassMode::Full, 100);
    input.now_unix = NOW_TEST;
    input.entries = vec![entry("c0", 50, 0), entry("c1", 50, 1), entry("c2", 50, 2)];
    input.pins = Some(PinSet::of_songs(vec![song("want", 10, "flac", None)]));
    let plan = plan_pass(&input);
    let gone = evictions(&plan);
    let kept: u64 = sizes.iter().filter(|(id, _)| !gone.iter().any(|g| g == id)).map(|(_, n)| n).sum();
    if dl_ids(&plan).iter().any(|id| id == "want") {
        assert!(kept + 10 <= 100, "{plan:?}");
    }
    // The one reclaim that the song's own size asks for would still leave the store over-full.
    assert_eq!(dl_ids(&plan), Vec::<String>::new());
    assert_eq!(gone, ["c0"], "the store only comes down to its budget");
    // Where that reclaim frees enough, the song is fetched in the same pass.
    input.entries = vec![entry("c0", 60, 0), entry("c1", 50, 1)];
    let plan = plan_pass(&input);
    assert_eq!(evictions(&plan), ["c0"]);
    assert_eq!(dl_ids(&plan), ["want"]);
}

#[test]
fn leapfrogging_rivals_swap_no_more_than_neglect_can_grow() {
    // Ten tracks a side, cold two at a time and in turn: each step of one overtakes the other.
    let ids = |side: &str| -> Vec<String> { (0..10).map(|k| format!("{side}{k}")).collect() };
    let album = |side: &str, cold_on: &[u32]| -> PinGroup {
        let names = ids(side);
        let tracks: Vec<(&str, u64)> = names.iter().map(|n| (n.as_str(), 10)).collect();
        let ages: Vec<Option<u32>> = cold_on.iter().map(|day| Some(61 - day)).collect();
        aged_grp(PinTier::Album, side, &tracks, &ages)
    };
    let pins = PinSet {
        groups: vec![
            album("A", &[0, 10, 10, 20, 20, 30, 30, 40, 40, 50]),
            album("B", &[5, 5, 15, 15, 25, 25, 35, 35, 45, 45]),
        ],
    };
    let (downloads, evictions, reversals, log) = sweep_days(&pins, 134, 400);
    assert_eq!(reversals, 9, "one for each strict lead, and none on a tie: {log:#?}");
    assert_eq!((downloads, evictions), (100, 90), "{log:#?}");
}

#[test]
fn the_bytes_of_a_status_add_up() {
    let mut input = PassInput::new(PassMode::Full, 4000);
    input.now_unix = NOW_TEST;
    input.pins = Some(mixed_pin_set());
    input.entries = vec![pinned_entry("an1", 150, 5), pinned_entry("r3", 55, 5)];
    let status = plan_pass_with_status(&input).1.expect("status");
    assert_eq!(status.resident_bytes, 1255);
    assert_eq!(status.tier_bytes, [140, 910, 205]);
    assert_eq!(status.tier_bytes.iter().sum::<u64>(), status.resident_bytes);
    assert_eq!(status.pending_bytes, 1255 - 150 - 55);
    // All of it fits, so nobody missed anything or lost to another.
    for g in &status.frontier {
        assert_eq!(g.standing, GroupStanding::Resident, "{}", g.id);
        assert_eq!((g.over_by, &g.blocked_by, g.held_back_by_floor), (0, &None, false));
    }
}

#[test]
fn repeats_and_unstorable_songs_score_nothing() {
    let sizes = || -> Vec<SizeEntry> {
        vec![
            SizeEntry { id: "x".to_string(), bytes: 10 },
            SizeEntry { id: "y".to_string(), bytes: 30 },
        ]
    };
    let plain = aged_grp(PinTier::Album, "g", &[("x", 10), ("y", 30)], &[Some(200), Some(3)]);
    let mut noisy = plain.clone();
    noisy.songs.insert(1, aged_song("a/b", 900, None));
    noisy.songs.push(aged_song("x", 10, Some(1)));
    let score = GroupScore::of(&plain, &sizes(), NOW_TEST);
    assert_eq!(GroupScore::of(&noisy, &sizes(), NOW_TEST), score);
    assert_eq!((score.last_played_days, score.oldest_played_days), (Some(3), Some(200)));
    let unheard = aged_grp(PinTier::Album, "u", &[("x", 10)], &[None]);
    let score = GroupScore::of(&unheard, &sizes(), NOW_TEST);
    assert_eq!((score.last_played_days, score.oldest_played_days), (None, None));
}

#[test]
fn pin_flags_are_set_where_they_differ_and_once() {
    let mut input = PassInput::new(PassMode::Full, 100_000);
    input.now_unix = NOW_TEST;
    // Two groups name the same song, which is still promoted once.
    input.pins = Some(PinSet {
        groups: vec![
            grp(PinTier::Album, "al", &[("new", 10), ("kept", 10)]),
            grp(PinTier::Song, "so", &[("new", 10)]),
        ],
    });
    input.entries = vec![
        entry("new", 10, 1),
        pinned_entry("kept", 10, 1),
        pinned_entry("dropped", 10, 1),
        entry("passing", 10, 1),
    ];
    let flags: Vec<(String, bool)> = plan_pass(&input)
        .iter()
        .filter_map(|a| match a {
            StoreAction::SetPinned { id, pinned } => Some((id.0.clone(), *pinned)),
            _ => None,
        })
        .collect();
    assert_eq!(flags, vec![("new".to_string(), true), ("dropped".to_string(), false)]);
}
