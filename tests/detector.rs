use dribbling_detection_algorithm::detector::{DetectorConfigError, DribbleDetector};
use dribbling_detection_algorithm::models::{Ball, DribbleEvent, DribleFrame, Player};
use dribbling_detection_algorithm::video::{collect_events, detect_video_events};

fn player(id: u32, x: i32, y: i32) -> Player {
    Player { id, x, y, velocity: (0, 0), within_inner_rad: false }
}

fn frame(n: u32, players: Vec<Player>, ball: (i32, i32)) -> DribleFrame {
    DribleFrame { frame_number: n, players, ball: Ball { x: ball.0, y: ball.1 } }
}

fn detector(inner: u32, outer: u32, inner_t: u32, outer_t: u32) -> DribbleDetector {
    match DribbleDetector::new(inner, outer, inner_t, outer_t) {
        Ok(d) => d,
        Err(_) => panic!("valid configuration refused"),
    }
}

fn run_all(d: &mut DribbleDetector, frames: Vec<DribleFrame>) -> Vec<DribbleEvent> {
    let mut out = Vec::new();
    for f in frames {
        if let Some(e) = d.process_frame(f) {
            out.push(e);
        }
    }
    out
}

/// Holder 1 at the origin with the ball, defender 2 one unit away.
fn pressed(n: u32) -> DribleFrame {
    frame(n, vec![player(1, 0, 0), player(2, 1, 0)], (0, 0))
}

#[test]
fn scenario_defender_leaves_gives_dribble() {
    let mut d = detector(2, 5, 1, 1);
    let frames = vec![
        pressed(0),
        pressed(1),
        pressed(2),
        frame(3, vec![player(1, 0, 0), player(2, 6, 0)], (0, 0)),
    ];
    let events = run_all(&mut d, frames);
    assert_eq!(events.len(), 1);
    let e = &events[0];
    assert_eq!(e.start_frame, 0);
    assert_eq!(e.end_frame, Some(3));
    assert!(e.detected_dribble);
    assert!(!e.detected_tackle);
    assert!(e.finished);
    assert!(e.ever_contested);
    assert_eq!(e.possession_holder, 1);
    assert_eq!(e.frames, vec![0, 1, 2, 3]);
    assert!(d.active_event.is_none());
}

fn possession_change_frames() -> Vec<DribleFrame> {
    vec![
        pressed(0),
        pressed(1),
        pressed(2),
        pressed(3),
        frame(4, vec![player(1, 0, 0), player(2, 1, 0), player(3, 10, 0)], (10, 0)),
    ]
}

#[test]
fn scenario_possession_change_after_contest_gives_tackle() {
    let mut d = detector(2, 5, 1, 1);
    let events = run_all(&mut d, possession_change_frames());
    assert_eq!(events.len(), 1);
    let e = &events[0];
    assert_eq!(e.start_frame, 0);
    assert_eq!(e.end_frame, Some(4));
    assert!(e.detected_tackle);
    assert!(!e.detected_dribble);
    assert!(e.finished);
}

#[test]
fn scenario_possession_change_short_contest_gives_dribble() {
    // Frames 0 to 3 put the defender in the inner zone four times: below five.
    let mut d = detector(2, 5, 5, 1);
    let events = run_all(&mut d, possession_change_frames());
    assert_eq!(events.len(), 1);
    assert_eq!(events[0].end_frame, Some(4));
    assert!(events[0].detected_dribble);
    assert!(!events[0].detected_tackle);
}

#[test]
fn possession_change_at_exact_inner_threshold_is_tackle() {
    let mut d = detector(2, 5, 4, 1);
    let events = run_all(&mut d, possession_change_frames());
    assert_eq!(events.len(), 1);
    assert!(events[0].detected_tackle);
}

#[test]
fn scenario_no_defender_no_episode() {
    let mut d = detector(2, 5, 1, 1);
    let frames: Vec<DribleFrame> =
        (0..10).map(|n| frame(n, vec![player(1, 0, 0), player(2, 10, 0)], (0, 0))).collect();
    let events = detect_video_events(&mut d, frames);
    assert!(events.is_empty());
    assert!(d.active_event.is_none());
}

/// Defender 2 in the outer zone only for `k` frames, then gone.
fn outer_presence(k: u32) -> Vec<DribleFrame> {
    let mut frames: Vec<DribleFrame> =
        (0..k).map(|n| frame(n, vec![player(1, 0, 0), player(2, 3, 0)], (0, 0))).collect();
    frames.push(frame(k, vec![player(1, 0, 0), player(2, 10, 0)], (0, 0)));
    frames
}

#[test]
fn outer_presence_below_threshold_is_dropped() {
    let mut d = detector(2, 5, 1, 3);
    assert!(run_all(&mut d, outer_presence(2)).is_empty());
    assert!(d.active_event.is_none());
}

#[test]
fn outer_presence_at_threshold_is_emitted() {
    let mut d = detector(2, 5, 1, 3);
    let events = run_all(&mut d, outer_presence(3));
    assert_eq!(events.len(), 1);
    assert_eq!(events[0].start_frame, 0);
    assert_eq!(events[0].end_frame, Some(3));
    assert!(events[0].detected_dribble);
    assert!(!events[0].ever_contested);
}

#[test]
fn holder_absent_ends_unfinished() {
    let mut d = detector(2, 5, 1, 1);
    let frames = vec![pressed(0), pressed(1), frame(2, vec![player(2, 1, 0)], (0, 0))];
    let events = run_all(&mut d, frames);
    assert_eq!(events.len(), 1);
    assert!(!events[0].finished);
    assert!(!events[0].detected_dribble);
    assert!(!events[0].detected_tackle);
    assert_eq!(events[0].end_frame, Some(2));
    assert_eq!(events[0].frames, vec![0, 1]);
}

#[test]
fn unclassified_episode_is_not_collected() {
    let mut d = detector(2, 5, 1, 1);
    let frames = vec![pressed(0), pressed(1), frame(2, vec![player(2, 1, 0)], (0, 0))];
    assert!(collect_events(&mut d, frames).is_empty());
}

#[test]
fn holder_loses_ball_without_successor_is_dribble() {
    let mut d = detector(2, 5, 1, 1);
    let frames = vec![pressed(0), frame(1, vec![player(1, 0, 0), player(2, 1, 0)], (20, 0))];
    let events = run_all(&mut d, frames);
    assert_eq!(events.len(), 1);
    assert!(events[0].detected_dribble);
    assert!(events[0].finished);
    assert_eq!(events[0].end_frame, Some(1));
}

#[test]
fn holder_at_exactly_inner_radius_keeps_ball() {
    // The ball is exactly two units from the holder: not beyond the inner radius.
    let mut d = detector(2, 5, 1, 1);
    let frames = vec![
        pressed(0),
        frame(1, vec![player(1, 0, 0), player(2, 1, 0), player(3, 2, 0)], (2, 0)),
    ];
    assert!(run_all(&mut d, frames).is_empty());
    let active = d.active_event.as_ref().unwrap();
    assert_eq!(active.frames, vec![0, 1]);
}

#[test]
fn start_picks_lowest_qualifying_id() {
    let mut d = detector(2, 5, 1, 1);
    let f = frame(0, vec![player(7, 0, 0), player(4, -1, 0), player(9, 4, 0)], (0, 0));
    assert!(d.process_frame(f).is_none());
    let active = d.active_event.as_ref().unwrap();
    assert_eq!(active.possession_holder, 4);
    assert_eq!(active.active_defenders, vec![7]);
    assert_eq!(active.inner_defenders, vec![7]);
}

#[test]
fn uncontested_carry_starts_nothing() {
    let mut d = detector(2, 5, 1, 1);
    assert!(d.process_frame(frame(0, vec![player(1, 0, 0)], (0, 0))).is_none());
    assert!(d.active_event.is_none());
}

#[test]
fn fresh_detectors_agree() {
    let mut a = detector(2, 5, 2, 2);
    let mut b = detector(2, 5, 2, 2);
    let ea = detect_video_events(&mut a, possession_change_frames());
    let eb = detect_video_events(&mut b, possession_change_frames());
    assert_eq!(ea.len(), eb.len());
    for (x, y) in ea.iter().zip(eb.iter()) {
        assert_eq!(x.start_frame, y.start_frame);
        assert_eq!(x.end_frame, y.end_frame);
        assert_eq!(x.detected_tackle, y.detected_tackle);
        assert_eq!(x.detected_dribble, y.detected_dribble);
        assert_eq!(x.frames, y.frames);
    }
}

#[test]
fn configuration_errors() {
    assert_eq!(DribbleDetector::new(5, 5, 1, 1).err(), Some(DetectorConfigError::RadiiNotOrdered));
    assert_eq!(DribbleDetector::new(6, 5, 1, 1).err(), Some(DetectorConfigError::RadiiNotOrdered));
    assert_eq!(DribbleDetector::new(2, 5, 0, 1).err(), Some(DetectorConfigError::ZeroThreshold));
    assert_eq!(DribbleDetector::new(2, 5, 1, 0).err(), Some(DetectorConfigError::ZeroThreshold));
    assert!(DribbleDetector::new(2, 5, 1, 1).is_ok());
}

#[test]
fn distance_is_squared_euclidean() {
    assert_eq!(DribbleDetector::distance((0, 0), (3, 4)), 25);
    assert_eq!(DribbleDetector::distance((-1, -1), (2, 3)), 25);
    assert_eq!(
        DribbleDetector::distance((i32::MIN, i32::MIN), (i32::MAX, i32::MAX)),
        2 * (u32::MAX as u128) * (u32::MAX as u128)
    );
}

#[test]
fn defenders_inner_within_outer() {
    let players = vec![player(1, 0, 0), player(2, 1, 0), player(3, 4, 0), player(4, 0, 5), player(5, 0, -1)];
    let holder = player(1, 0, 0);
    let (outer, inner) = DribbleDetector::calc_defenders(&players, &holder, 5, 2);
    assert_eq!(outer, vec![2, 3, 5]);
    assert_eq!(inner, vec![2, 5]);
    assert!(inner.iter().all(|id| outer.contains(id)));
}

#[test]
fn possession_change_restarts_for_new_holder() {
    let mut d = detector(2, 5, 1, 1);
    let mut frames = possession_change_frames();
    frames[4].players.push(player(5, 12, 0));
    let events = run_all(&mut d, frames);
    assert_eq!(events.len(), 1);
    assert!(events[0].detected_tackle);
    let active = d.active_event.as_ref().unwrap();
    assert_eq!(active.possession_holder, 3);
    assert_eq!(active.start_frame, 4);
    assert_eq!(active.active_defenders, vec![5]);
    assert!(active.inner_defenders.is_empty());
}
