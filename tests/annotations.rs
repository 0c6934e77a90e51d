use dribbling_detection_algorithm::annotations::{
    build_frame, filter_annotations, get_ball_model, get_player_models, relabel_category,
    PersonCategories, PitchAnnotation,
};
use dribbling_detection_algorithm::categories::{category_id, Category};
use dribbling_detection_algorithm::config::GeneralConfig;
use dribbling_detection_algorithm::export::{export_labels, DribbleLabel};
use dribbling_detection_algorithm::input::KeyboardInput;
use dribbling_detection_algorithm::models::{Ball, DribbleEvent};

fn ann(image: &str, category: u32, track: Option<u32>, pos: Option<(i32, i32)>) -> PitchAnnotation {
    PitchAnnotation {
        image_id: image.to_string(),
        category_id: category,
        track_id: track,
        position: pos,
        team: Some("left".to_string()),
    }
}

fn cats() -> PersonCategories {
    PersonCategories { player: Some(1), goalkeeper: Some(2), referee: Some(3) }
}

#[test]
fn filter_keeps_image_and_relabels() {
    let anns = vec![
        ann("a", 2, Some(1), Some((0, 0))),
        ann("b", 1, Some(2), Some((0, 0))),
        ann("a", 3, Some(3), Some((1, 1))),
        ann("a", 4, None, Some((2, 2))),
    ];
    let out = filter_annotations(&"a".to_string(), anns.clone(), cats(), true, false);
    let ids: Vec<u32> = out.iter().map(|a| a.category_id).collect();
    assert_eq!(ids, vec![1, 1, 4]);
    assert!(out.iter().all(|a| a.image_id == "a"));
    assert!(out.iter().all(|a| a.team.as_deref() == Some("left")));
    let kept = filter_annotations(&"a".to_string(), anns, cats(), false, false);
    let ids: Vec<u32> = kept.iter().map(|a| a.category_id).collect();
    assert_eq!(ids, vec![2, 3, 4]);
}

#[test]
fn ignored_teams_get_numeric_placeholders() {
    let mut anns = vec![ann("a", 1, Some(1), Some((0, 0))), ann("b", 1, Some(2), Some((1, 1))), ann("a", 4, None, Some((2, 2)))];
    anns[2].team = None;
    let out = filter_annotations(&"a".to_string(), anns, cats(), false, true);
    assert_eq!(out.len(), 2);
    assert_eq!(out[0].track_id, Some(1));
    assert_eq!(out[1].position, Some((2, 2)));
    for a in &out {
        let team = a.team.as_ref().unwrap();
        assert!(team.parse::<u32>().is_ok());
    }
}

#[test]
fn relabel_without_player_category_uses_default() {
    let c = PersonCategories { player: None, goalkeeper: Some(7), referee: None };
    assert_eq!(relabel_category(7, c, true), 1);
    assert_eq!(relabel_category(8, c, true), 8);
    assert_eq!(relabel_category(7, c, false), 7);
}

#[test]
fn ball_is_first_positioned_ball() {
    let anns = vec![ann("a", 4, None, None), ann("a", 1, Some(1), Some((5, 5))), ann("a", 4, None, Some((3, -2))), ann("a", 4, None, Some((9, 9)))];
    let b = get_ball_model(Some(4), &anns).unwrap();
    assert_eq!((b.x, b.y), (3, -2));
    assert!(get_ball_model(None, &anns).is_none());
    assert!(get_ball_model(Some(8), &anns).is_none());
}

#[test]
fn players_need_position_and_track() {
    let anns = vec![
        ann("a", 1, Some(10), Some((1, 2))),
        ann("a", 1, None, Some((3, 4))),
        ann("a", 1, Some(11), None),
        ann("a", 4, Some(12), Some((5, 6))),
        ann("a", 1, Some(13), Some((-7, 8))),
    ];
    let players = get_player_models(Some(1), &anns).unwrap();
    let got: Vec<(u32, i32, i32)> = players.iter().map(|p| (p.id, p.x, p.y)).collect();
    assert_eq!(got, vec![(10, 1, 2), (13, -7, 8)]);
    assert!(get_player_models(None, &anns).is_none());
}

#[test]
fn frame_without_players_is_skipped() {
    let anns = vec![ann("a", 4, None, Some((0, 0)))];
    assert!(build_frame(3, Some(4), Some(1), &anns, Ball { x: 0, y: 0 }).is_none());
    let anns = vec![ann("a", 1, Some(5), Some((1, 1)))];
    let f = build_frame(3, Some(4), Some(1), &anns, Ball { x: -100, y: -100 }).unwrap();
    assert_eq!(f.frame_number, 3);
    assert_eq!((f.ball.x, f.ball.y), (-100, -100));
    assert_eq!(f.players.len(), 1);
}

#[test]
fn category_lookup_takes_last_match() {
    let mk = |id: u32, name: &str| Category { supercategory: "object".to_string(), id, name: name.to_string(), lines: None };
    let categories = vec![mk(1, "player"), mk(4, "ball"), mk(9, "player")];
    assert_eq!(category_id(&categories, &"player".to_string()), Some(9));
    assert_eq!(category_id(&categories, &"ball".to_string()), Some(4));
    assert_eq!(category_id(&categories, &"referee".to_string()), None);
    let p = PersonCategories::from_categories(&categories);
    assert_eq!(p.player, Some(9));
    assert_eq!(p.goalkeeper, None);
}

#[test]
fn labels_are_padded() {
    let mut e = DribbleEvent::new(3, 5);
    e.end_frame = Some(30);
    e.detected_tackle = true;
    let labels = export_labels(&vec![e]);
    assert_eq!(labels.len(), 1);
    assert_eq!(labels[0].start_frame, 0);
    assert_eq!(labels[0].end_frame, Some(50));
    assert!(labels[0].detected_tackle);
    assert_eq!(labels[0].possession_holder, 3);
    let mut late = DribbleEvent::new(1, 100);
    late.end_frame = Some(u32::MAX - 5);
    let label = DribbleLabel::from(&late).padded();
    assert_eq!(label.start_frame, 80);
    assert_eq!(label.end_frame, Some(u32::MAX));
}

#[test]
fn worker_count_follows_video_mode() {
    let mut g = GeneralConfig { num_cores: 8, log_level: "info".to_string(), video_mode: "display".to_string() };
    assert_eq!(g.worker_count(), 1);
    g.video_mode = "none".to_string();
    assert_eq!(g.worker_count(), 8);
}

#[test]
fn key_codes() {
    assert_eq!(KeyboardInput::from_key(113, true), KeyboardInput::Quit);
    assert_eq!(KeyboardInput::from_key(37, true), KeyboardInput::NextFrame);
    assert_eq!(KeyboardInput::from_key(37, false), KeyboardInput::PreviousFrame);
    assert_eq!(KeyboardInput::from_key(40, false), KeyboardInput::NextVideo);
    assert_eq!(KeyboardInput::from_key(32, false), KeyboardInput::NextVideo);
    assert_eq!(KeyboardInput::from_key(39, false), KeyboardInput::NextFrame);
    assert_eq!(KeyboardInput::from_key(-1, false), KeyboardInput::NextFrame);
    assert_eq!(KeyboardInput::from_key(113, false), KeyboardInput::Quit);
}
