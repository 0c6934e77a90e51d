use dribbling_detection_algorithm::merge::combine_consecutive_events;
use dribbling_detection_algorithm::models::DribbleEvent;

fn episode(start: u32, end: u32, tackle: bool) -> DribbleEvent {
    let mut e = DribbleEvent::new(1, start);
    for f in (start..=end).skip(1) {
        e.add_frame(f);
    }
    e.end_frame = Some(end);
    e.finished = true;
    e.detected_tackle = tackle;
    e.detected_dribble = !tackle;
    e
}

#[test]
fn adjacent_same_class_merge() {
    let merged = combine_consecutive_events(vec![episode(4, 6, false), episode(0, 3, false)]);
    assert_eq!(merged.len(), 1);
    assert_eq!(merged[0].start_frame, 0);
    assert_eq!(merged[0].end_frame, Some(6));
    assert_eq!(merged[0].frames, vec![0, 1, 2, 3, 4, 5, 6]);
    assert!(merged[0].detected_dribble);
    assert!(!merged[0].detected_tackle);
}

#[test]
fn gap_of_two_frames_stays_apart() {
    let merged = combine_consecutive_events(vec![episode(0, 3, true), episode(5, 6, true)]);
    assert_eq!(merged.len(), 2);
    assert_eq!(merged[0].end_frame, Some(3));
    assert_eq!(merged[1].start_frame, 5);
}

#[test]
fn different_classes_stay_apart() {
    let merged = combine_consecutive_events(vec![episode(0, 3, true), episode(4, 6, false)]);
    assert_eq!(merged.len(), 2);
    assert!(merged[0].detected_tackle);
    assert!(merged[1].detected_dribble);
}

#[test]
fn merge_keeps_later_end() {
    let mut inner = episode(2, 3, false);
    inner.ever_contested = true;
    let merged = combine_consecutive_events(vec![episode(0, 8, false), inner]);
    assert_eq!(merged.len(), 1);
    assert_eq!(merged[0].end_frame, Some(8));
    assert!(merged[0].ever_contested);
}

#[test]
fn chain_merges_into_one() {
    let merged = combine_consecutive_events(vec![
        episode(10, 12, true),
        episode(0, 4, true),
        episode(5, 9, true),
        episode(20, 21, true),
    ]);
    assert_eq!(merged.len(), 2);
    assert_eq!(merged[0].start_frame, 0);
    assert_eq!(merged[0].end_frame, Some(12));
    assert_eq!(merged[1].start_frame, 20);
}

#[test]
fn empty_input_gives_empty_output() {
    assert!(combine_consecutive_events(Vec::new()).is_empty());
}

#[test]
fn end_at_largest_frame_does_not_overflow() {
    let merged =
        combine_consecutive_events(vec![episode(u32::MAX - 1, u32::MAX, false), episode(u32::MAX, u32::MAX, false)]);
    assert_eq!(merged.len(), 1);
    assert_eq!(merged[0].end_frame, Some(u32::MAX));
}

#[test]
fn new_event_holds_its_start_frame() {
    let mut e = DribbleEvent::new(9, 42);
    assert_eq!(e.frames, vec![42]);
    assert_eq!(e.end_frame, None);
    assert_eq!(e.possession_holder, 9);
    e.add_frame(43);
    assert_eq!(e.frames, vec![42, 43]);
}
