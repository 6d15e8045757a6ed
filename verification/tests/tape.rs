//! The tape: windows, cuts, names and sweeps.
use hypodj_core::names::is_tmp_name;
use hypodj_core::scan::{claim_ownership, Ownership};
use hypodj_core::segment::{
    commit, removal, root_is_safe, segment_name, segment_name_when, segment_path, sidecar_path,
    slug, tmp_path, unique_id, TmpGuard, SLUG_MAX_BYTES,
};
use hypodj_core::stamp::{minute_or_epoch, now_unix, stamp, unix_or_zero};
use hypodj_core::sweep::{
    pair_at, segment_ids, sweep, view_directory, Pair, SweepReport, TapeFile,
};
use hypodj_core::tape::{
    attributable, cut_for, is_usable, local_cut, plan_window, recut_bounds, Cut, CutPlan, CutStamps,
    LocalCut, MarkSubject, WindowError, EDGE_LEAD_SECS, TAPE_MIN_SECS, TRACK_SHAPE_PROVEN,
};

/// A position in seconds, as the player reports it, in microseconds.
fn us(secs: f64) -> Option<i64> {
    if secs.is_finite() {
        Some((secs * 1e6).round() as i64)
    } else {
        None
    }
}

fn at(secs: f64) -> i64 {
    us(secs).expect("a finite position")
}

fn window(
    pos: f64,
    back: f64,
    fwd: f64,
    ranges: &[(f64, f64)],
    max: f64,
    min: f64,
) -> Result<(i64, i64), WindowError> {
    let ranges: Vec<(Option<i64>, Option<i64>)> =
        ranges.iter().map(|(lo, hi)| (us(*lo), us(*hi))).collect();
    plan_window(us(pos), us(back), us(fwd), &ranges, us(max), us(min))
}

fn span(start: f64, end: f64) -> Result<(i64, i64), WindowError> {
    Ok((at(start), at(end)))
}

fn thin(secs: f64) -> Result<(i64, i64), WindowError> {
    Err(WindowError::TooThin { available: at(secs) })
}

#[test]
fn a_dump_from_a_different_entry_is_not_attributable() {
    assert!(!attributable(Some(7), Some(8)), "different entries must be refused");
    assert!(attributable(Some(7), Some(7)), "the same entry is fine");
}

#[test]
fn an_unknowable_entry_is_not_treated_as_a_mismatch() {
    assert!(attributable(None, Some(8)));
    assert!(attributable(Some(7), None));
    assert!(attributable(None, None));
}

#[test]
fn plan_window_clamps_the_ask_into_the_real_cache() {
    assert_eq!(window(400.0, 300.0, 0.0, &[(0.0, 420.0)], 1200.0, 12.0), span(100.0, 400.0));
    assert_eq!(window(90.0, 300.0, 60.0, &[(0.0, 106.0)], 1200.0, 12.0), span(0.0, 106.0));
}

#[test]
fn plan_window_refuses_a_span_below_the_floor_without_spending_a_command() {
    assert_eq!(window(3.0, 300.0, 0.0, &[(0.0, 3.0)], 1200.0, 12.0), thin(3.0));
    assert_eq!(window(500.0, 300.0, 0.0, &[(0.0, 100.0)], 1200.0, 12.0), thin(0.0));
    assert_eq!(window(10.0, 300.0, 0.0, &[], 1200.0, 12.0), thin(0.0));
}

#[test]
fn plan_window_caps_the_span_and_keeps_the_freshest_audio() {
    assert_eq!(
        window(4000.0, 100_000.0, 0.0, &[(0.0, 4000.0)], 1200.0, 12.0),
        span(2800.0, 4000.0)
    );
}

#[test]
fn plan_window_handles_a_negative_range_start_and_disjoint_ranges() {
    assert_eq!(
        window(50.0, 300.0, 0.0, &[(-0.025_057, 60.0)], 1200.0, 12.0),
        span(-0.025_057, 50.0)
    );
    assert_eq!(
        window(200.0, 300.0, 0.0, &[(0.0, 50.0), (150.0, 240.0)], 1200.0, 12.0),
        span(150.0, 200.0)
    );
}

#[test]
fn plan_window_is_total_over_non_finite_input() {
    assert_eq!(
        window(f64::NAN, 300.0, 0.0, &[(0.0, 400.0)], 1200.0, 12.0),
        Err(WindowError::NoPosition)
    );
    assert_eq!(
        window(f64::INFINITY, 300.0, 0.0, &[(0.0, 400.0)], 1200.0, 12.0),
        Err(WindowError::NoPosition)
    );
    assert!(matches!(
        window(400.0, f64::NAN, 0.0, &[(0.0, 400.0)], 1200.0, 12.0),
        Err(WindowError::TooThin { .. })
    ));
    assert_eq!(
        window(400.0, 300.0, 0.0, &[(f64::NAN, 400.0), (0.0, 400.0)], 1200.0, 12.0),
        span(100.0, 400.0)
    );
    assert!(window(400.0, 300.0, 0.0, &[(0.0, 400.0)], f64::NAN, 12.0).is_ok());
}

#[test]
fn window_errors_say_what_is_missing() {
    assert_eq!(WindowError::NoPosition.message(), "nothing is loaded to capture from");
    assert_eq!(
        WindowError::TooThin { available: at(3.4) }.message(),
        "only 3s is buffered so far"
    );
    // As a number printed without decimals is: halves go to the even one.
    for secs in [0.0f64, 0.5, 1.5, 2.5, 3.5, 3.6, 11.999_999, -0.25, -0.5, -2.5, -3.6] {
        let said = WindowError::TooThin { available: at(secs) }.message();
        assert_eq!(said, format!("only {secs:.0}s is buffered so far"));
    }
}

#[test]
fn a_window_name_never_carries_a_title() {
    let n = segment_name(
        Cut::Window,
        "20260805-2317",
        Some("NTS 2"),
        Some("Kassem Mosse - Untitled"),
        us(312.0),
    );
    assert_eq!(n, "20260805-2317-nts-2-w312s");
    assert!(!n.contains("kassem"), "a window name must never name a track");
}

#[test]
fn the_track_shape_is_gated_on_a_measurement_nobody_has_taken() {
    for cut in [Cut::IcyEdge, Cut::IcyOpen] {
        let n = segment_name(
            cut,
            "20260805-2317",
            Some("Modular Station"),
            Some("Kassem Mosse - Untitled"),
            us(240.0),
        );
        if TRACK_SHAPE_PROVEN {
            assert_eq!(n, "20260805-2317-modular-station-kassem-mosse-untitled");
        } else {
            assert_eq!(n, "20260805-2317-modular-station-w240s");
        }
    }
}

#[test]
fn the_track_shape_itself_is_real_code_and_does_what_it_claims() {
    assert!(!Cut::Window.may_name_a_track());
    assert!(Cut::IcyEdge.may_name_a_track_when(true));
    assert!(Cut::IcyOpen.may_name_a_track_when(true));
    assert!(!Cut::Window.may_name_a_track_when(true), "a window NEVER names a track");

    let station = Some("Modular Station");
    let title = Some("Kassem Mosse - Untitled");
    for cut in [Cut::IcyEdge, Cut::IcyOpen] {
        assert_eq!(
            segment_name_when(true, cut, "20260805-2317", station, title, us(240.0)),
            "20260805-2317-modular-station-kassem-mosse-untitled",
            "stamp, station, title - in that order, hyphen-separated, no duration"
        );
    }
    assert_eq!(
        segment_name_when(true, Cut::Window, "20260805-2317", station, title, us(240.0)),
        "20260805-2317-modular-station-w240s"
    );
    assert_eq!(
        segment_name_when(true, Cut::IcyEdge, "20260805-2317", station, None, us(240.0)),
        "20260805-2317-modular-station-w240s"
    );
    assert_eq!(
        segment_name_when(true, Cut::IcyEdge, "20260805-2317", station, Some("  --- "), us(240.0)),
        "20260805-2317-modular-station-w240s"
    );
    assert_eq!(
        segment_name(Cut::IcyEdge, "20260805-2317", station, title, us(240.0)),
        segment_name_when(
            TRACK_SHAPE_PROVEN,
            Cut::IcyEdge,
            "20260805-2317",
            station,
            title,
            us(240.0)
        )
    );
}

#[test]
fn a_nameless_station_still_yields_a_usable_window_name() {
    let n = segment_name(Cut::Window, "20260805-2317", None, None, us(42.4));
    assert_eq!(n, "20260805-2317-stream-w42s");
    let n = segment_name(Cut::Window, "20260805-2317", Some("   ---  "), None, us(8.0));
    assert_eq!(n, "20260805-2317-stream-w8s");
    assert_eq!(segment_name(Cut::Window, "S", None, None, us(f64::NAN)), "S-stream-w0s");
}

#[test]
fn slug_survives_every_shell_and_mpv_hostile_byte() {
    assert_eq!(slug("$HOME ${x} \"q\" \\ back\nline"), "home-x-q-back-line");
    assert_eq!(slug("../../etc/passwd"), "etc-passwd");
    assert_eq!(slug("---"), "");
    assert_eq!(slug(""), "");
    let long = "a".repeat(200);
    assert_eq!(slug(&long).len(), SLUG_MAX_BYTES);
    let accents = "é".repeat(100);
    assert!(
        slug(&accents).is_empty(),
        "non-ascii letters collapse rather than transliterate badly"
    );
    let mixed = format!("{}{}", "z".repeat(60), "é");
    assert!(mixed.len() > SLUG_MAX_BYTES);
    assert_eq!(slug(&mixed).len(), SLUG_MAX_BYTES);
}

#[test]
fn a_slug_that_is_cut_at_a_hyphen_loses_it() {
    // Forty-seven letters, a space, and more: the hyphen would be the last byte that fits.
    let text = format!("{} more", "a".repeat(47));
    assert_eq!(slug(&text), "a".repeat(47));
    // One letter less and the next word's first letter still fits.
    let text = format!("{} more", "a".repeat(46));
    assert_eq!(slug(&text), format!("{}-m", "a".repeat(46)));
    // One letter or digit anywhere is enough to have a slug.
    assert_eq!(slug("\u{e9} -- _/ \u{4e00}"), "");
    assert_eq!(slug("\u{e9} -- 7 _/ \u{4e00}"), "7");
    // A slug of a slug is itself.
    for s in ["NTS 2", "$HOME ${x}", "a--b", "é x é"] {
        assert_eq!(slug(&slug(s)), slug(s), "{s:?}");
    }
}

#[test]
fn every_window_name_ends_in_its_duration() {
    for secs in [0.0f64, 11.9, 12.0, 312.4, 1200.0] {
        let n = segment_name(Cut::Window, "20260805-2317", Some("NTS 2"), None, us(secs));
        assert!(n.ends_with(&format!("-w{}s", secs.round() as u64)), "{n}");
    }
}

fn stamps(icy: Option<f64>, prev_start: Option<f64>, prev_end: Option<f64>) -> CutStamps {
    CutStamps {
        icy_start_pos: icy.and_then(us),
        prev_start_pos: prev_start.and_then(us),
        prev_end_pos: prev_end.and_then(us),
    }
}

fn plan(cut: Cut, start: Option<f64>, end: Option<f64>) -> CutPlan {
    CutPlan { cut, start_pos: start.and_then(us), end_pos: end.and_then(us) }
}

#[test]
fn cut_for_covers_every_mark_subject() {
    let full = stamps(Some(300.0), Some(60.0), Some(300.0));
    assert_eq!(cut_for(MarkSubject::Song, &full), None);
    assert_eq!(cut_for(MarkSubject::Nothing, &full), None);
    assert_eq!(cut_for(MarkSubject::NoPrevious, &full), None);
    assert_eq!(
        cut_for(MarkSubject::Previous, &full),
        Some(plan(Cut::IcyEdge, Some(60.0), Some(300.0)))
    );
    assert_eq!(
        cut_for(MarkSubject::Icy, &full),
        Some(plan(Cut::IcyOpen, Some(300.0), None))
    );
    for subject in [
        MarkSubject::Ambiguous,
        MarkSubject::Show,
        MarkSubject::FreshMatch,
        MarkSubject::Moment,
    ] {
        assert_eq!(
            cut_for(subject, &full).map(|p| p.cut),
            Some(Cut::Window),
            "{subject:?} must never claim an ICY edge"
        );
    }
}

#[test]
fn a_missing_or_absurd_position_degrades_to_a_window_not_an_error() {
    let (icy, prev) = (MarkSubject::Icy, MarkSubject::Previous);
    assert_eq!(cut_for(icy, &stamps(None, None, None)).unwrap().cut, Cut::Window);
    assert_eq!(cut_for(prev, &stamps(None, None, None)).unwrap().cut, Cut::Window);
    assert_eq!(cut_for(icy, &stamps(Some(f64::NAN), None, None)).unwrap().cut, Cut::Window);
    assert_eq!(
        cut_for(prev, &stamps(None, Some(300.0), Some(60.0))).unwrap().cut,
        Cut::Window
    );
    assert_eq!(cut_for(prev, &stamps(None, Some(60.0), None)).unwrap().cut, Cut::Window);
}

fn cut_locally(plan: &CutPlan, from: f64, to: f64) -> LocalCut {
    local_cut(plan, us(from), us(to))
}

#[test]
fn local_cut_translates_a_contained_edge_onto_the_file() {
    let open = plan(Cut::IcyOpen, Some(760.0), None);
    assert_eq!(
        cut_locally(&open, 700.0, 1000.0),
        LocalCut { cut: Cut::IcyOpen, start: us(60.0), end: None, truncated_at_press: true }
    );
    let edge = plan(Cut::IcyEdge, Some(760.0), Some(940.0));
    assert_eq!(
        cut_locally(&edge, 700.0, 1000.0),
        LocalCut {
            cut: Cut::IcyEdge,
            start: us(60.0),
            end: us(240.0),
            truncated_at_press: false,
        }
    );
    let plain = plan(Cut::Window, None, None);
    assert_eq!(
        cut_locally(&plain, 700.0, 1000.0),
        LocalCut { cut: Cut::Window, start: None, end: None, truncated_at_press: false }
    );
}

#[test]
fn an_edge_outside_the_dumped_window_loses_the_claim_and_never_the_audio() {
    let old = plan(Cut::IcyEdge, Some(100.0), Some(640.0));
    let got = cut_locally(&old, 700.0, 1000.0);
    assert_eq!(got.cut, Cut::Window, "the label moves");
    assert_eq!(got.start, None, "and nothing is trimmed on a boundary the bytes lack");
    assert_eq!(got.end, None);
    assert!(!got.truncated_at_press);
    let long = plan(Cut::IcyOpen, Some(220.0), None);
    assert_eq!(cut_locally(&long, 700.0, 1000.0).cut, Cut::Window);
    let past = plan(Cut::IcyEdge, Some(760.0), Some(1200.0));
    assert_eq!(cut_locally(&past, 700.0, 1000.0).cut, Cut::Window);
}

#[test]
fn local_cut_tolerates_the_stamp_error_it_was_built_with_and_is_total() {
    let early = plan(Cut::IcyOpen, Some(699.0), None);
    let got = cut_locally(&early, 700.0, 1000.0);
    assert_eq!(got.cut, Cut::IcyOpen);
    assert_eq!(got.start, us(0.0), "never a negative start");

    let open = plan(Cut::IcyOpen, Some(760.0), None);
    for bad in [f64::NAN, f64::INFINITY, f64::NEG_INFINITY] {
        let broken = plan(Cut::IcyOpen, Some(bad), None);
        assert_eq!(cut_locally(&broken, 700.0, 1000.0).cut, Cut::Window);
        assert_eq!(cut_locally(&open, bad, 1000.0).cut, Cut::Window);
        assert_eq!(cut_locally(&open, 700.0, bad).cut, Cut::Window);
    }
    let endless = plan(Cut::IcyEdge, Some(760.0), Some(f64::NAN));
    let got = cut_locally(&endless, 700.0, 1000.0);
    assert_eq!(got.cut, Cut::IcyEdge, "a NaN END is no end, not a broken start");
    assert_eq!(got.end, None);
    assert_eq!(cut_locally(&open, 1000.0, 700.0).cut, Cut::Window);
    assert_eq!(cut_locally(&open, 900.0, 900.0).cut, Cut::Window);
    let empty = plan(Cut::IcyEdge, Some(760.0), Some(760.0));
    assert_eq!(cut_locally(&empty, 700.0, 1000.0).cut, Cut::Window);
}

#[test]
fn the_slack_on_a_boundary_ends_where_it_says() {
    // One and a half seconds before the window is still inside, a microsecond more is not.
    let edge = plan(Cut::IcyOpen, Some(698.5), None);
    assert_eq!(cut_locally(&edge, 700.0, 1000.0).cut, Cut::IcyOpen);
    let over = CutPlan { start_pos: Some(at(698.5) - 1), ..edge };
    assert_eq!(cut_locally(&over, 700.0, 1000.0).cut, Cut::Window);
    assert_eq!(TAPE_MIN_SECS, 12);
    assert_eq!(EDGE_LEAD_SECS, 5);
}

#[test]
fn a_file_is_cut_again_only_inside_itself() {
    assert_eq!(recut_bounds(Some(-1), Some(5)), None);
    assert_eq!(recut_bounds(None, Some(5)), None);
    assert_eq!(recut_bounds(Some(0), None), Some((0, None)));
    assert_eq!(recut_bounds(Some(3), Some(3)), Some((3, None)), "no end at or before the start");
    assert_eq!(recut_bounds(Some(3), Some(4)), Some((3, Some(4))));
    assert!(is_usable(us(12.0)) && !is_usable(us(11.999_999)) && !is_usable(None));
    // A window longer than the clock can count is cut as far as it can.
    let far = CutPlan { cut: Cut::IcyOpen, start_pos: Some(i64::MAX), end_pos: None };
    assert_eq!(local_cut(&far, Some(i64::MIN), Some(i64::MAX)).start, Some(i64::MAX));
}

#[test]
fn a_segment_is_committed_audio_first_and_removed_record_first() {
    let taken = vec!["a.mkv".to_string(), "a.toml".to_string()];
    let c = commit("/t", &taken, "a", 9);
    assert_eq!(c.id, "a-b");
    assert_eq!(c.writes, ["/t/a-b.mkv", "/t/a-b.toml"]);
    assert_eq!(removal("/t", "a"), ["/t/a.toml", "/t/a.mkv"]);
    let files = vec![
        TapeFile { name: "a.mkv".to_string(), bytes: 7 },
        TapeFile { name: "tmp.1.2.mkv".to_string(), bytes: 7 },
    ];
    let pair = pair_at(&files, 0, true).expect("audio");
    assert_eq!((pair.id.as_str(), pair.bytes, pair.keep), ("a", 7, true));
    assert!(pair_at(&files, 1, true).is_none(), "a dump is no segment");
}

#[test]
fn a_root_mpv_would_mangle_is_refused() {
    assert!(root_is_safe("/home/u/.local/state/hypodj/tape"));
    assert!(root_is_safe("/home/u/my tape/with $dollar"));
    assert!(!root_is_safe("/home/u/ta\"pe"));
    assert!(!root_is_safe("/home/u/ta\\pe"));
    assert!(!root_is_safe("/home/u/ta\npe"));
    assert!(!root_is_safe("/home/u/ta\rpe"));
}

#[test]
fn the_temp_leaf_handed_to_mpv_is_ascii_by_construction() {
    let p = tmp_path("/tmp/x", 4321, 7);
    assert_eq!(p, "/tmp/x/tmp.4321.7.mkv");
    let leaf = p.rsplit('/').next().unwrap();
    assert!(leaf.is_ascii(), "mpv is only ever handed an ASCII leaf: {leaf}");
    assert!(leaf.starts_with("tmp."));
    assert!(leaf.ends_with(".mkv"));
}

#[test]
fn cut_words_are_stable_because_the_sidecar_is_a_record() {
    assert_eq!(Cut::IcyEdge.as_str(), "icy-edge");
    assert_eq!(Cut::IcyOpen.as_str(), "icy-open");
    assert_eq!(Cut::Window.as_str(), "window");
}

#[test]
fn stamps_sort_lexically_in_chronological_order() {
    let a = stamp(1_785_000_000);
    let b = stamp(1_785_000_000 + 3600);
    assert!(a < b, "{a} must sort before {b}");
    assert_eq!(a.len(), "YYYYMMDD-HHMM".len());
    assert!(!stamp(u64::MAX).is_empty());
}

#[test]
fn a_stamp_spells_a_minute_within_a_day_of_the_moment() {
    let s = stamp(1_785_000_000);
    let (date, time) = s.split_once('-').expect("a date and a time");
    // 2026-07-25T17:20:00Z, in whatever zone this runs.
    assert!(["20260724", "20260725", "20260726"].contains(&date), "{s}");
    assert_eq!(time.len(), 4);
    assert!(time.chars().all(|c| c.is_ascii_digit()));
    // Five digits of a year come with a sign, and the topmost numbers count down from the epoch.
    let far = stamp(253_402_300_800 + 10 * 86_400);
    assert!(["+100000110", "+100000111", "+100000112"].iter().any(|d| far.starts_with(d)), "{far}");
    assert_eq!(far.len(), "+10000MMDD-HHMM".len());
    let eve = stamp(u64::MAX);
    assert!(["19691230", "19691231", "19700101"].iter().any(|d| eve.starts_with(d)), "{eve}");
    // Past the calendar there is no minute to spell.
    assert_eq!(stamp(8_210_266_876_800), "epoch-8210266876800");
    assert_eq!(stamp(9_000_000_000_000_000_000), "epoch-9000000000000000000");
    assert_eq!(minute_or_epoch(None, 12), "epoch-12");
    assert_eq!(minute_or_epoch(Some("20260805-2317".to_string()), 12), "20260805-2317");
}

#[test]
fn the_wall_clock_is_past_the_epoch_or_reads_zero() {
    assert!(now_unix() > 1_500_000_000);
    assert_eq!(unix_or_zero(None), 0);
    assert_eq!(unix_or_zero(Some(7)), 7);
}

#[test]
fn paths_of_a_segment_stand_side_by_side() {
    assert_eq!(segment_path("/t", "20260805-2317-x-w1s"), "/t/20260805-2317-x-w1s.mkv");
    assert_eq!(sidecar_path("/t/", "20260805-2317-x-w1s"), "/t/20260805-2317-x-w1s.toml");
    assert!(!is_tmp_name("tmp.4321.7.mkv"), "the store's temporaries are named otherwise");
}

#[test]
fn a_released_guard_dooms_nothing() {
    let guard = TmpGuard("/t/tmp.1.2.mkv".to_string());
    assert_eq!(guard.doomed(), Some("/t/tmp.1.2.mkv"));
    assert_eq!(guard.release().doomed(), None);
}

#[test]
fn a_second_press_in_a_minute_gets_a_letter() {
    let none: Vec<String> = Vec::new();
    assert_eq!(unique_id(&none, "id", 9), "id");
    let one = vec!["id.mkv".to_string(), "id.toml".to_string()];
    assert_eq!(unique_id(&one, "id", 9), "id-b");
    // Either half of a pair is enough to be taken.
    let halves = vec!["id.toml".to_string(), "id-b.mkv".to_string()];
    assert_eq!(unique_id(&halves, "id", 9), "id-c");
    // And when every letter is gone, the process id decides.
    let mut all = vec!["id.mkv".to_string()];
    for c in 'b'..='z' {
        all.push(format!("id-{c}.mkv"));
    }
    assert_eq!(unique_id(&all, "id", 9), "id-9");
    // Even that one is only taken where it is free.
    all.push("id-9.toml".to_string());
    assert_eq!(unique_id(&all, "id", 9), "id-9-2");
    all.push("id-9-2.mkv".to_string());
    assert_eq!(unique_id(&all, "id", 9), "id-9-3");
    assert_eq!(commit("/t", &all, "id", 9).writes, ["/t/id-9-3.mkv", "/t/id-9-3.toml"]);
}

fn files(names: &[(&str, u64)]) -> Vec<TapeFile> {
    names.iter().map(|(n, b)| TapeFile { name: n.to_string(), bytes: *b }).collect()
}

fn pair(id: &str, bytes: u64, keep: bool) -> Pair {
    Pair { id: id.to_string(), bytes, keep }
}

#[test]
fn a_sweep_goes_oldest_first_and_stops_when_it_fits() {
    let pairs = vec![
        pair("20260801-1000-nts-2-w300s", 100, false),
        pair("20260802-1000-nts-2-w300s", 100, false),
        pair("20260803-1000-nts-2-w300s", 100, false),
    ];
    let (gone, r) = sweep(&pairs, 150, 1, 0);
    assert_eq!(gone, vec![0, 1]);
    assert_eq!(
        r,
        SweepReport { removed: 2, orphans: 0, bytes: 100, over_budget_on_pins: false }
    );
    let (gone, r) = sweep(&pairs, 300, 1, 2);
    assert!(gone.is_empty());
    assert_eq!((r.orphans, r.bytes), (2, 300));
}

#[test]
fn a_sweep_never_takes_a_pin_and_says_so_when_pins_alone_bust_the_budget() {
    let pairs = vec![pair("a", 100, true), pair("b", 100, true), pair("c", 100, false)];
    let (gone, r) = sweep(&pairs, 50, 1, 0);
    assert_eq!(gone, vec![2], "only the unpinned one may go");
    assert_eq!(r.bytes, 200, "pins still count against the budget");
    assert!(r.over_budget_on_pins);
}

#[test]
fn a_sweep_never_empties_the_directory() {
    let pairs = vec![pair("a", 100, false)];
    let (gone, r) = sweep(&pairs, 0, 0, 0);
    assert!(gone.is_empty());
    assert_eq!((r.removed, r.bytes), (0, 100));
    assert!(!r.over_budget_on_pins, "there are no pins to blame");
    // Nor where the least number of pairs is what exceeds it, and a pin among them is small.
    let mixed = vec![
        pair("20260801-1000-a-w300s", 10, true),
        pair("20260802-1000-b-w300s", 100, false),
    ];
    let (gone, r) = sweep(&mixed, 50, 2, 0);
    assert!(gone.is_empty());
    assert_eq!(
        r,
        SweepReport { removed: 0, orphans: 0, bytes: 110, over_budget_on_pins: false }
    );
    let pairs = vec![pair("a", 1, false), pair("b", 1, false), pair("c", 1, false)];
    assert_eq!(sweep(&pairs, 0, 2, 0).0, vec![0]);
}

#[test]
fn a_sweep_removes_both_halves_of_what_is_incomplete_and_a_dead_dump() {
    let dir = files(&[
        ("20260801-1000-a-w300s.mkv", 5),
        ("20260802-1000-b-w300s.toml", 9),
        ("tmp.999999.0.mkv", 4),
        ("tmp.77.0.mkv", 9),
        ("NOTES.txt", 3),
        (".hypodj-tape", 60),
        ("20260805-1000-d-w300s.toml", 1),
        ("20260805-1000-d-w300s.mkv", 100),
        ("20260803-1000-c-w300s.mkv", 100),
        ("20260803-1000-c-w300s.toml", 1),
    ]);
    let v = view_directory(&dir, 77);
    assert_eq!(v.lone_audio, vec![0]);
    assert_eq!(v.lone_records, vec![1]);
    assert_eq!(v.foreign, vec![2], "and never the dump in flight");
    assert_eq!(v.pairs, vec![8, 7], "oldest first");
    assert_eq!(
        segment_ids(&dir),
        vec!["20260803-1000-c-w300s", "20260805-1000-d-w300s"],
        "audio without its record was never committed"
    );
}

#[test]
fn an_unmarked_directory_with_anything_in_it_is_not_adopted() {
    assert_eq!(claim_ownership(true, false), Ownership::Ours);
    assert_eq!(claim_ownership(true, true), Ownership::Ours);
    assert_eq!(claim_ownership(false, true), Ownership::Adopt);
    assert_eq!(claim_ownership(false, false), Ownership::Refuse);
}
