use vstd::prelude::*;

use crate::models::{Ball, DribleFrame, Player};

verus! {

/// The category that goalkeepers and referees become when person classes are
/// ignored and the categories name no player class.
pub const DEFAULT_PLAYER_CATEGORY: u32 = 1;

/// One annotation of an image, reduced to what detection reads: its image,
/// category, track id, pitch position (the midpoint of the bottom edge of its
/// pitch bounding box, in the detector's integer units) if it has one, and
/// team if known.
#[derive(Clone, Debug)]
pub struct PitchAnnotation {
    pub image_id: String,
    pub category_id: u32,
    pub track_id: Option<u32>,
    pub position: Option<(i32, i32)>,
    pub team: Option<String>,
}

pub struct AnnotationView {
    pub image_id: Seq<char>,
    pub category_id: u32,
    pub track_id: Option<u32>,
    pub position: Option<(i32, i32)>,
    pub team: Option<Seq<char>>,
}

impl View for PitchAnnotation {
    type V = AnnotationView;

    open spec fn view(&self) -> AnnotationView {
        AnnotationView {
            image_id: self.image_id@,
            category_id: self.category_id,
            track_id: self.track_id,
            position: self.position,
            team: match &self.team {
                Some(t) => Some(t@),
                None => None,
            },
        }
    }
}

pub open spec fn views_of(v: Seq<PitchAnnotation>) -> Seq<AnnotationView> {
    v.map_values(|a: PitchAnnotation| a@)
}

/// The category ids of the person classes, where the dataset has them.
#[derive(Clone, Copy, Debug)]
pub struct PersonCategories {
    pub player: Option<u32>,
    pub goalkeeper: Option<u32>,
    pub referee: Option<u32>,
}

/// The category of an annotation once person classes are folded into the
/// player class, if `ignore_person_class` asks for it.
pub open spec fn relabeled(category_id: u32, cats: PersonCategories, ignore_person_class: bool) -> u32 {
    if ignore_person_class && (cats.goalkeeper == Some(category_id) || cats.referee == Some(
        category_id,
    )) {
        match cats.player {
            Some(p) => p,
            None => DEFAULT_PLAYER_CATEGORY,
        }
    } else {
        category_id
    }
}

/// The annotations of image `image_id`, in order, relabeled.
pub open spec fn filtered(
    anns: Seq<AnnotationView>,
    image_id: Seq<char>,
    cats: PersonCategories,
    ignore_person_class: bool,
) -> Seq<AnnotationView>
    decreases anns.len(),
{
    if anns.len() == 0 {
        Seq::empty()
    } else {
        let prev = filtered(anns.drop_last(), image_id, cats, ignore_person_class);
        let a = anns.last();
        if a.image_id == image_id {
            prev.push(
                AnnotationView {
                    category_id: relabeled(a.category_id, cats, ignore_person_class),
                    ..a
                },
            )
        } else {
            prev
        }
    }
}

/// Among the first `n` annotations, the position of the first ball of
/// category `cat` that has one.
pub open spec fn first_ball_upto(anns: Seq<AnnotationView>, n: int, cat: u32) -> Option<Ball>
    decreases n,
{
    if n <= 0 {
        None
    } else {
        match first_ball_upto(anns, n - 1, cat) {
            Some(b) => Some(b),
            None => {
                let a = anns[n - 1];
                if a.category_id == cat && a.position is Some {
                    Some(Ball { x: (a.position->0).0, y: (a.position->0).1 })
                } else {
                    None
                }
            },
        }
    }
}

/// The players, in order, that the annotations of category `cat` with a
/// position and a track id give.
pub open spec fn players_of(anns: Seq<AnnotationView>, cat: u32) -> Seq<Player>
    decreases anns.len(),
{
    if anns.len() == 0 {
        Seq::empty()
    } else {
        let prev = players_of(anns.drop_last(), cat);
        let a = anns.last();
        if a.category_id == cat && a.position is Some && a.track_id is Some {
            prev.push(
                Player {
                    id: a.track_id->0,
                    x: (a.position->0).0,
                    y: (a.position->0).1,
                    velocity: (0, 0),
                    within_inner_rad: false,
                },
            )
        } else {
            prev
        }
    }
}

/// `a` stands for `b`: equal in all but the team, which is kept unless
/// `ignore_teams`, and then holds some placeholder.
pub open spec fn stands_for(a: AnnotationView, b: AnnotationView, ignore_teams: bool) -> bool {
    &&& a.image_id == b.image_id
    &&& a.category_id == b.category_id
    &&& a.track_id == b.track_id
    &&& a.position == b.position
    &&& if ignore_teams {
        a.team is Some
    } else {
        a.team == b.team
    }
}

/// Relies on `rand::random::<u32>`: a draw from the thread's generator,
/// written in decimal. Nothing is promised of its value. (`rand::random`
/// panics only where the operating system's generator cannot seed it.)
#[verifier::external_body]
fn random_team() -> String {
    rand::random::<u32>().to_string()
}

fn copy_team(team: &Option<String>) -> (r: Option<String>)
    ensures
        match (r, team) {
            (Some(a), Some(b)) => a@ == b@,
            (None, None) => true,
            _ => false,
        },
{
    match team {
        Some(t) => Some(t.clone()),
        None => None,
    }
}

/// The category of an annotation once person classes are folded into the
/// player class, if `ignore_person_class` asks for it.
pub fn relabel_category(category_id: u32, categories: PersonCategories, ignore_person_class: bool) -> (r: u32)
    ensures
        r == relabeled(category_id, categories, ignore_person_class),
{
    let is_person = match (categories.goalkeeper, categories.referee) {
        (Some(g), _) if g == category_id => true,
        (_, Some(f)) if f == category_id => true,
        _ => false,
    };
    if ignore_person_class && is_person {
        match categories.player {
            Some(p) => p,
            None => DEFAULT_PLAYER_CATEGORY,
        }
    } else {
        category_id
    }
}

/// The annotations of image `image_id`, in order, with goalkeepers and
/// referees relabeled as players where `ignore_person_class` is set, and each
/// team replaced by a random placeholder where `ignore_teams` is set.
pub fn filter_annotations(
    image_id: &String,
    annotations: Vec<PitchAnnotation>,
    categories: PersonCategories,
    ignore_person_class: bool,
    ignore_teams: bool,
) -> (r: Vec<PitchAnnotation>)
    ensures
        r@.len() == filtered(views_of(annotations@), image_id@, categories, ignore_person_class).len(),
        forall|k: int|
            0 <= k < r@.len() ==> stands_for(
                #[trigger] r@[k]@,
                filtered(views_of(annotations@), image_id@, categories, ignore_person_class)[k],
                ignore_teams,
            ),
{
    let ghost all = views_of(annotations@);
    let mut r: Vec<PitchAnnotation> = Vec::new();
    let mut i: usize = 0;
    while i < annotations.len()
        invariant
            i <= annotations.len(),
            all == views_of(annotations@),
            r@.len() == filtered(all.take(i as int), image_id@, categories, ignore_person_class).len(),
            forall|k: int|
                0 <= k < r@.len() ==> stands_for(
                    #[trigger] r@[k]@,
                    filtered(all.take(i as int), image_id@, categories, ignore_person_class)[k],
                    ignore_teams,
                ),
        decreases annotations.len() - i,
    {
        let a = &annotations[i];
        proof {
            assert(all.take(i + 1).drop_last() =~= all.take(i as int));
            assert(all.take(i + 1).last() == a@);
        }
        if a.image_id == *image_id {
            let team = if ignore_teams {
                Some(random_team())
            } else {
                copy_team(&a.team)
            };
            let kept = PitchAnnotation {
                image_id: a.image_id.clone(),
                category_id: relabel_category(a.category_id, categories, ignore_person_class),
                track_id: a.track_id,
                position: a.position,
                team,
            };
            r.push(kept);
        }
        i = i + 1;
    }
    assert(all.take(annotations.len() as int) =~= all);
    r
}

/// The ball of the image: the position of the first annotation of the ball
/// category that has one; none where the dataset has no ball category.
pub fn get_ball_model(ball_category: Option<u32>, annotations: &[PitchAnnotation]) -> (r: Option<Ball>)
    ensures
        r == match ball_category {
            Some(cat) => first_ball_upto(views_of(annotations@), annotations@.len() as int, cat),
            None => None,
        },
{
    let cat = match ball_category {
        Some(c) => c,
        None => return None,
    };
    let ghost all = views_of(annotations@);
    let mut i: usize = 0;
    while i < annotations.len()
        invariant
            i <= annotations.len(),
            all == views_of(annotations@),
            ball_category == Some(cat),
            first_ball_upto(all, i as int, cat) is None,
        decreases annotations.len() - i,
    {
        let a = &annotations[i];
        assert(all[i as int] == a@);
        if a.category_id == cat {
            if let Some((x, y)) = a.position {
                proof {
                    assert(first_ball_upto(all, i + 1, cat) == Some(Ball { x, y }));
                    lemma_first_ball_stable(all, i + 1, all.len() as int, cat);
                }
                return Some(Ball { x, y });
            }
        }
        i = i + 1;
    }
    None
}

proof fn lemma_first_ball_stable(anns: Seq<AnnotationView>, m: int, n: int, cat: u32)
    requires
        0 <= m <= n,
        first_ball_upto(anns, m, cat) is Some,
    ensures
        first_ball_upto(anns, n, cat) == first_ball_upto(anns, m, cat),
    decreases n - m,
{
    if n > m {
        lemma_first_ball_stable(anns, m, n - 1, cat);
    }
}

/// The players of the image: one per annotation of the player category that
/// has a position and a track id, in order; none where the dataset has no
/// player category.
pub fn get_player_models(player_category: Option<u32>, annotations: &[PitchAnnotation]) -> (r: Option<Vec<Player>>)
    ensures
        match player_category {
            Some(cat) => r matches Some(v) && v@ == players_of(views_of(annotations@), cat),
            None => r is None,
        },
{
    let cat = match player_category {
        Some(c) => c,
        None => return None,
    };
    let ghost all = views_of(annotations@);
    let mut players: Vec<Player> = Vec::new();
    let mut i: usize = 0;
    while i < annotations.len()
        invariant
            i <= annotations.len(),
            all == views_of(annotations@),
            players@ == players_of(all.take(i as int), cat),
        decreases annotations.len() - i,
    {
        let a = &annotations[i];
        proof {
            assert(all.take(i + 1).drop_last() =~= all.take(i as int));
            assert(all.take(i + 1).last() == a@);
        }
        if a.category_id == cat {
            match (a.position, a.track_id) {
                (Some((x, y)), Some(id)) => {
                    players.push(Player { id, x, y, velocity: (0, 0), within_inner_rad: false });
                },
                _ => {},
            }
        }
        i = i + 1;
    }
    assert(all.take(annotations.len() as int) =~= all);
    Some(players)
}

/// The frame that the detector is fed for an image: its players and its ball,
/// or `default_ball` where it has none. No frame where the image has no
/// player, so that a dropout does not read as the holder leaving.
pub fn build_frame(
    frame_number: u32,
    ball_category: Option<u32>,
    player_category: Option<u32>,
    annotations: &[PitchAnnotation],
    default_ball: Ball,
) -> (r: Option<DribleFrame>)
    ensures
        match player_category {
            Some(cat) => {
                let players = players_of(views_of(annotations@), cat);
                if players.len() == 0 {
                    r is None
                } else {
                    r matches Some(f) && f.frame_number == frame_number && f.players@ == players
                        && f.ball == match ball_category {
                        Some(bc) => match first_ball_upto(
                            views_of(annotations@),
                            annotations@.len() as int,
                            bc,
                        ) {
                            Some(b) => b,
                            None => default_ball,
                        },
                        None => default_ball,
                    }
                }
            },
            None => r is None,
        },
{
    let players = match get_player_models(player_category, annotations) {
        Some(p) => p,
        None => return None,
    };
    if players.len() == 0 {
        return None;
    }
    let ball = match get_ball_model(ball_category, annotations) {
        Some(b) => b,
        None => default_ball,
    };
    Some(DribleFrame { frame_number, players, ball })
}

} // verus!
