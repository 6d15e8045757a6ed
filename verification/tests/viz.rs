//! The level stream's lines.
use hypodj_core::viz::{
    frame_fields, frame_line, viz_step, VizEvent, VizStep, VIZ_GREETING, VIZ_HEARTBEAT, VIZ_PING,
};

#[derive(Clone, Copy, Debug, PartialEq)]
struct VizFrame {
    rms_db: f32,
    peak_db: f32,
    gain_db: f32,
    playing: bool,
}

fn encode_frame(f: &VizFrame) -> String {
    frame_line(
        &format!("{:.2}", f.rms_db),
        &format!("{:.2}", f.peak_db),
        &format!("{:.2}", f.gain_db),
        f.playing,
    )
}

fn decode_frame(line: &str) -> Option<VizFrame> {
    let f = frame_fields(line)?;
    Some(VizFrame {
        rms_db: f.rms.parse().ok()?,
        peak_db: f.peak.parse().ok()?,
        gain_db: f.gain.parse().ok()?,
        playing: f.playing,
    })
}

#[test]
fn frame_round_trips_through_the_wire() {
    let f = VizFrame { rms_db: -20.51, peak_db: -12.30, gain_db: -6.00, playing: true };
    let line = encode_frame(&f);
    assert!(line.ends_with('\n'), "frame is newline terminated");
    let back = decode_frame(line.trim_end()).expect("decodes");
    assert!((back.rms_db - f.rms_db).abs() < 0.005);
    assert!((back.peak_db - f.peak_db).abs() < 0.005);
    assert!((back.gain_db - f.gain_db).abs() < 0.005);
    assert!(back.playing);
}

#[test]
fn decode_tolerates_and_rejects() {
    let f = decode_frame("-54.00 -54.00 0.00 0").unwrap();
    assert!(!f.playing);
    assert_eq!(f.rms_db, -54.00);
    assert!(decode_frame("").is_none());
    assert!(decode_frame("garbage").is_none());
    assert!(decode_frame("-1 -2 -3").is_none());
    assert!(decode_frame("-1 -2 -3 2").is_none());
    assert!(decode_frame("-1 -2 -3 1 extra").is_none());
    assert!(decode_frame("x -2 -3 1").is_none());
}

#[test]
fn negative_infinity_gain_encodes_finite_shape() {
    let f = VizFrame { rms_db: -120.0, peak_db: -120.0, gain_db: -60.0, playing: false };
    let back = decode_frame(encode_frame(&f).trim_end()).unwrap();
    assert_eq!(back.playing, false);
    assert!(back.rms_db <= -119.0);
}

#[test]
fn lines_are_framed_exactly() {
    assert_eq!(frame_line("-1.00", "2.50", "0.00", true), "-1.00 2.50 0.00 1\n");
    let f = frame_fields("\t a \u{a0} b\u{2003}c  0 \r\n").expect("any white space parts words");
    assert_eq!((f.rms.as_str(), f.peak.as_str(), f.gain.as_str()), ("a", "b", "c"));
    assert!(!f.playing);
}

#[test]
fn neither_the_ping_nor_the_greeting_is_a_frame() {
    assert_eq!(frame_fields(VIZ_PING), None);
    assert_eq!(frame_fields(VIZ_GREETING), None);
}

#[test]
fn a_connection_ends_with_its_peer_and_speaks_when_idle() {
    assert_eq!(viz_step(VizEvent::PeerGone), VizStep::Stop);
    assert_eq!(viz_step(VizEvent::Closed), VizStep::Stop);
    assert_eq!(viz_step(VizEvent::Idle), VizStep::Ping);
    assert_eq!(viz_step(VizEvent::Frame), VizStep::Send);
    assert_eq!(viz_step(VizEvent::PeerSpoke), VizStep::Ignore);
    assert_eq!(viz_step(VizEvent::Lagged), VizStep::Ignore);
    assert_eq!(VIZ_HEARTBEAT, 2_000);
}
