use vstd::prelude::*;

use crate::geometry::{ball_pos, beyond, dist2, inner_ids, outer_ids, player_pos, within};
use crate::models::{Ball, DribbleEvent, DribleFrame, Episode, Player};

verus! {

// ---------------------------------------------------------------------------
// The state machine, as mathematics
// ---------------------------------------------------------------------------

/// `p` is close enough to the ball to be its holder.
pub open spec fn holds_ball(p: Player, ball: Ball, inner: u32) -> bool {
    within(player_pos(p), ball_pos(ball), inner)
}

/// `p` may start an episode: it holds the ball and some other player stands in
/// its outer zone.
pub open spec fn qualifies(players: Seq<Player>, p: Player, ball: Ball, outer: u32, inner: u32) -> bool {
    holds_ball(p, ball, inner) && outer_ids(players, p, outer).len() > 0
}

/// Among the first `n` players, the index of the qualifying player with the
/// lowest id (the earliest one where ids are equal), if any qualifies.
pub open spec fn start_choice_upto(players: Seq<Player>, n: int, ball: Ball, outer: u32, inner: u32) -> Option<int>
    decreases n,
{
    if n <= 0 {
        None
    } else {
        let prev = start_choice_upto(players, n - 1, ball, outer, inner);
        let p = players[n - 1];
        if qualifies(players, p, ball, outer, inner) && (prev is None || p.id < players[prev->0].id) {
            Some(n - 1)
        } else {
            prev
        }
    }
}

/// The player of the frame that starts an episode, if any.
pub open spec fn start_choice(players: Seq<Player>, ball: Ball, outer: u32, inner: u32) -> Option<int> {
    start_choice_upto(players, players.len() as int, ball, outer, inner)
}

/// Among the first `n` players, the index of the first one with id `id`.
pub open spec fn index_of_upto(players: Seq<Player>, n: int, id: u32) -> Option<int>
    decreases n,
{
    if n <= 0 {
        None
    } else {
        match index_of_upto(players, n - 1, id) {
            Some(k) => Some(k),
            None => if players[n - 1].id == id {
                Some(n - 1)
            } else {
                None
            },
        }
    }
}

/// The index of the first player with id `id`, if any.
pub open spec fn index_of(players: Seq<Player>, id: u32) -> Option<int> {
    index_of_upto(players, players.len() as int, id)
}

/// A player other than `holder` holds the ball.
pub open spec fn other_claims(players: Seq<Player>, holder: u32, ball: Ball, inner: u32) -> bool {
    exists|k: int| 0 <= k < players.len() && players[k].id != holder && holds_ball(players[k], ball, inner)
}

/// Some id of `prev` is missing from `cur`.
pub open spec fn disengaged(prev: Seq<u32>, cur: Seq<u32>) -> bool {
    exists|k: int| 0 <= k < prev.len() && !cur.contains(prev[k])
}

/// The mathematical value of a `DribbleDetector`: its configuration, the
/// active episode and the two zone counters.
pub struct DetectorView {
    pub outer_rad: u32,
    pub inner_rad: u32,
    pub inner_threshold: u32,
    pub outer_threshold: u32,
    pub active: Option<Episode>,
    pub outer_frames: nat,
    pub inner_frames: nat,
}

impl DetectorView {
    /// Valid configuration, and an active episode that is still open, with
    /// its frames strictly ascending from its start frame and counters that
    /// never exceed its number of frames.
    pub open spec fn wf(self) -> bool {
        &&& self.inner_rad < self.outer_rad
        &&& self.inner_threshold > 0
        &&& self.outer_threshold > 0
        &&& match self.active {
            None => self.outer_frames == 0 && self.inner_frames == 0,
            Some(e) => {
                &&& e.frames.len() >= 1
                &&& e.frames[0] == e.start_frame
                &&& forall|i: int, j: int|
                    0 <= i < j < e.frames.len() ==> e.frames[i] < e.frames[j]
                &&& forall|i: int| 0 <= i < e.frames.len() ==> e.frames[i] >= e.start_frame + i
                &&& self.outer_frames <= e.frames.len()
                &&& self.inner_frames <= e.frames.len()
                &&& e.end_frame is None
                &&& !e.finished
                &&& !e.detected_dribble
                &&& !e.detected_tackle
            },
        }
    }

    /// `f` may come next: its number is above every frame of the active
    /// episode.
    pub open spec fn accepts(self, f: DribleFrame) -> bool {
        match self.active {
            None => true,
            Some(e) => f.frame_number > e.frames.last(),
        }
    }

    /// The detector with no active episode.
    pub open spec fn idle(self) -> DetectorView {
        DetectorView { active: None, outer_frames: 0, inner_frames: 0, ..self }
    }
}

/// Finalizes `e` whose outer counter stands at `outer_frames`: the detector
/// becomes idle, and the episode is emitted iff the counter reached the outer
/// threshold.
pub open spec fn finalize(d: DetectorView, e: Episode, outer_frames: nat) -> (DetectorView, Option<Episode>) {
    (
        d.idle(),
        if outer_frames >= d.outer_threshold {
            Some(e)
        } else {
            None
        },
    )
}

/// `e` closed at frame `n`, with the given outcome.
pub open spec fn closed(e: Episode, n: u32, finished: bool, dribble: bool, tackle: bool) -> Episode {
    Episode {
        end_frame: Some(n),
        finished,
        detected_dribble: dribble,
        detected_tackle: tackle,
        ..e
    }
}

/// One frame seen from the idle state.
pub open spec fn start_step(d: DetectorView, f: DribleFrame) -> (DetectorView, Option<Episode>) {
    let players = f.players@;
    match start_choice(players, f.ball, d.outer_rad, d.inner_rad) {
        None => (d, None),
        Some(i) => {
            let h = players[i];
            let out = outer_ids(players, h, d.outer_rad);
            let inn = inner_ids(players, h, d.outer_rad, d.inner_rad);
            let e = Episode {
                finished: false,
                detected_dribble: false,
                detected_tackle: false,
                ever_contested: false,
                possession_holder: h.id,
                start_frame: f.frame_number,
                end_frame: None,
                frames: seq![f.frame_number],
                active_defenders: out,
                inner_defenders: inn,
            };
            (
                DetectorView {
                    active: Some(e),
                    outer_frames: 1,
                    inner_frames: if inn.len() > 0 {
                        1
                    } else {
                        0
                    },
                    ..d
                },
                None,
            )
        },
    }
}

/// One frame seen while episode `e` is tracked.
pub open spec fn track_step(d: DetectorView, e: Episode, f: DribleFrame) -> (DetectorView, Option<Episode>) {
    let players = f.players@;
    let n = f.frame_number;
    match index_of(players, e.possession_holder) {
        None => finalize(d, closed(e, n, false, e.detected_dribble, e.detected_tackle), d.outer_frames),
        Some(hi) => {
            let h = players[hi];
            if beyond(player_pos(h), ball_pos(f.ball), d.inner_rad) {
                if other_claims(players, e.possession_holder, f.ball, d.inner_rad) {
                    let tackle = d.inner_frames >= d.inner_threshold;
                    let ended = finalize(d, closed(e, n, true, !tackle, tackle), d.outer_frames);
                    // The new holder may start an episode in this very frame.
                    (start_step(ended.0, f).0, ended.1)
                } else {
                    finalize(d, closed(e, n, true, true, e.detected_tackle), d.outer_frames)
                }
            } else {
                let out = outer_ids(players, h, d.outer_rad);
                let inn = inner_ids(players, h, d.outer_rad, d.inner_rad);
                let of = d.outer_frames + if out.len() > 0 {
                    1nat
                } else {
                    0nat
                };
                let inf = d.inner_frames + if inn.len() > 0 {
                    1nat
                } else {
                    0nat
                };
                let e1 = Episode { frames: e.frames.push(n), ..e };
                if disengaged(e.inner_defenders, inn) {
                    finalize(d, closed(e1, n, true, true, e.detected_tackle), of)
                } else {
                    let e2 = Episode {
                        active_defenders: out,
                        inner_defenders: inn,
                        ever_contested: e.ever_contested || (inn.len() > 0 && inf
                            >= d.inner_threshold),
                        ..e1
                    };
                    if out.len() == 0 {
                        finalize(d, closed(e2, n, true, true, e.detected_tackle), of)
                    } else {
                        (DetectorView { active: Some(e2), outer_frames: of, inner_frames: inf, ..d }, None)
                    }
                }
            }
        },
    }
}

/// One frame: the next state of the detector and the episode it emits, if any.
pub open spec fn step(d: DetectorView, f: DribleFrame) -> (DetectorView, Option<Episode>) {
    match d.active {
        None => start_step(d, f),
        Some(e) => track_step(d, e, f),
    }
}

pub open spec fn opt_view(r: Option<DribbleEvent>) -> Option<Episode> {
    match r {
        Some(e) => Some(e@),
        None => None,
    }
}

/// The outer counter of `d` once frame `f` is counted for episode `e`: one
/// more when the holder is present, keeps the ball, and has a defender in the
/// outer zone.
pub open spec fn counted_outer(d: DetectorView, e: Episode, f: DribleFrame) -> nat {
    let players = f.players@;
    match index_of(players, e.possession_holder) {
        Some(hi) => if !beyond(player_pos(players[hi]), ball_pos(f.ball), d.inner_rad) && outer_ids(
            players,
            players[hi],
            d.outer_rad,
        ).len() > 0 {
            d.outer_frames + 1
        } else {
            d.outer_frames
        },
        None => d.outer_frames,
    }
}

/// A step keeps the detector well formed, and leaves an active episode whose
/// last frame is the frame just seen.
pub proof fn lemma_step_wf(d: DetectorView, f: DribleFrame)
    requires
        d.wf(),
        d.accepts(f),
    ensures
        step(d, f).0.wf(),
        match step(d, f).0.active {
            Some(e) => e.frames.last() == f.frame_number,
            None => true,
        },
{
    if let Some(e) = d.active {
        let players = f.players@;
        if let Some(hi) = index_of(players, e.possession_holder) {
            lemma_index_of_bounds(players, players.len() as int, e.possession_holder);
            let fr = e.frames.push(f.frame_number);
            assert forall|i: int, j: int| 0 <= i < j < fr.len() implies fr[i] < fr[j] by {
                if j == fr.len() - 1 {
                    assert(e.frames[i] <= e.frames.last());
                }
            }
        }
    } else {
        if let Some(i) = start_choice(f.players@, f.ball, d.outer_rad, d.inner_rad) {
            lemma_start_choice_bounds(f.players@, f.players@.len() as int, f.ball, d.outer_rad, d.inner_rad);
        }
    }
}

proof fn lemma_index_of_bounds(players: Seq<Player>, n: int, id: u32)
    requires
        n <= players.len(),
    ensures
        index_of_upto(players, n, id) matches Some(k) ==> 0 <= k < n && players[k].id == id,
    decreases n,
{
    if n > 0 {
        lemma_index_of_bounds(players, n - 1, id);
    }
}

proof fn lemma_start_choice_bounds(players: Seq<Player>, n: int, ball: Ball, outer: u32, inner: u32)
    requires
        n <= players.len(),
    ensures
        start_choice_upto(players, n, ball, outer, inner) matches Some(k) ==> 0 <= k < n && qualifies(
            players,
            players[k],
            ball,
            outer,
            inner,
        ),
    decreases n,
{
    if n > 0 {
        lemma_start_choice_bounds(players, n - 1, ball, outer, inner);
    }
}

/// After the step, the episode that started at `e.start_frame` is still the
/// active one.
pub open spec fn continues(d: DetectorView, e: Episode, f: DribleFrame) -> bool {
    step(d, f).0.active matches Some(e2) && e2.start_frame == e.start_frame
}

/// An episode is emitted only when it ends, and then exactly when its count of
/// frames with an outer-zone defender, this frame included, reached the outer
/// threshold; while it goes on, the counter holds that count. Starting an
/// episode emits nothing.
pub proof fn lemma_emitted_iff_outer_threshold(d: DetectorView, f: DribleFrame)
    requires
        d.wf(),
        d.accepts(f),
    ensures
        d.active is None ==> step(d, f).1 is None,
        d.active matches Some(e) ==> {
            &&& step(d, f).1 is Some <==> (!continues(d, e, f) && counted_outer(d, e, f)
                >= d.outer_threshold)
            &&& continues(d, e, f) ==> step(d, f).0.outer_frames == counted_outer(d, e, f)
        },
{
    if let Some(e) = d.active {
        let players = f.players@;
        assert(e.frames.last() >= e.start_frame);
        if let Some(i) = start_choice(players, f.ball, d.outer_rad, d.inner_rad) {
            lemma_start_choice_bounds(players, players.len() as int, f.ball, d.outer_rad, d.inner_rad);
        }
    }
}

/// On a possession change (the holder is beyond the inner radius of the ball
/// and another player holds it) the episode ends, finished, and the frame is
/// seen anew from the idle state; the episode, if emitted, is a tackle iff the
/// inner counter reached the inner threshold, and a dribble otherwise.
pub proof fn lemma_possession_change_class(d: DetectorView, f: DribleFrame)
    requires
        d.wf(),
        d.active is Some,
        index_of(f.players@, d.active->0.possession_holder) matches Some(hi) && beyond(
            player_pos(f.players@[hi]),
            ball_pos(f.ball),
            d.inner_rad,
        ),
        other_claims(f.players@, d.active->0.possession_holder, f.ball, d.inner_rad),
    ensures
        step(d, f).0 == start_step(d.idle(), f).0,
        step(d, f).1 is Some <==> d.outer_frames >= d.outer_threshold,
        step(d, f).1 matches Some(e) ==> {
            &&& e.finished
            &&& e.end_frame == Some(f.frame_number)
            &&& e.detected_tackle <==> d.inner_frames >= d.inner_threshold
            &&& e.detected_dribble <==> d.inner_frames < d.inner_threshold
        },
{
}

/// No player qualifies among the first `n`: no start.
proof fn lemma_no_start(players: Seq<Player>, n: int, ball: Ball, outer: u32, inner: u32)
    requires
        n <= players.len(),
        forall|k: int| 0 <= k < n ==> !qualifies(players, #[trigger] players[k], ball, outer, inner),
    ensures
        start_choice_upto(players, n, ball, outer, inner) is None,
    decreases n,
{
    if n > 0 {
        lemma_no_start(players, n - 1, ball, outer, inner);
    }
}

/// In frame `f` no player that holds the ball has an opponent within the
/// outer radius.
pub open spec fn unpressured(f: DribleFrame, outer: u32, inner: u32) -> bool {
    forall|k: int|
        0 <= k < f.players@.len() && holds_ball(#[trigger] f.players@[k], f.ball, inner) ==> outer_ids(
            f.players@,
            f.players@[k],
            outer,
        ).len() == 0
}

/// An idle detector stays idle, emitting nothing, on a frame without pressure.
pub proof fn lemma_unpressured_step(d: DetectorView, f: DribleFrame)
    requires
        d.active is None,
        unpressured(f, d.outer_rad, d.inner_rad),
    ensures
        step(d, f) == (d, None::<Episode>),
{
    let players = f.players@;
    assert forall|k: int| 0 <= k < players.len() implies !qualifies(
        players,
        #[trigger] players[k],
        f.ball,
        d.outer_rad,
        d.inner_rad,
    ) by {
        if holds_ball(players[k], f.ball, d.inner_rad) {
        }
    }
    lemma_no_start(players, players.len() as int, f.ball, d.outer_rad, d.inner_rad);
}

// ---------------------------------------------------------------------------
// The detector
// ---------------------------------------------------------------------------

/// Why a detector configuration was refused.
#[derive(Clone, Copy, Debug, PartialEq, Eq, Structural)]
pub enum DetectorConfigError {
    /// The inner radius is not below the outer radius.
    RadiiNotOrdered,
    /// A threshold is zero.
    ZeroThreshold,
}

/// Detects dribble and tackle episodes in one video's frames, one frame at a
/// time. An episode starts when a player holds the ball with an opponent in
/// the outer zone, counts the frames with defenders in each zone, and is
/// emitted on its end if the outer count reached `outer_threshold`.
pub struct DribbleDetector {
    pub outer_rad: u32,
    pub inner_rad: u32,
    pub inner_threshold: u32,
    pub outer_threshold: u32,
    pub active_event: Option<DribbleEvent>,
    active_outer_frames: u64,
    active_inner_frames: u64,
}

impl View for DribbleDetector {
    type V = DetectorView;

    closed spec fn view(&self) -> DetectorView {
        DetectorView {
            outer_rad: self.outer_rad,
            inner_rad: self.inner_rad,
            inner_threshold: self.inner_threshold,
            outer_threshold: self.outer_threshold,
            active: opt_view(self.active_event),
            outer_frames: self.active_outer_frames as nat,
            inner_frames: self.active_inner_frames as nat,
        }
    }
}

/// `p` lies strictly within `r` of `q`.
fn is_within(p: (i32, i32), q: (i32, i32), r: u32) -> (b: bool)
    ensures
        b == within((p.0 as int, p.1 as int), (q.0 as int, q.1 as int), r),
{
    assert((r as u128) * (r as u128) <= 0x1_0000_0000_0000_0000) by (nonlinear_arith)
        requires
            r <= 0xffff_ffff,
    ;
    let rr: u128 = (r as u128) * (r as u128);
    DribbleDetector::distance(p, q) < rr
}

/// `p` lies strictly farther than `r` from `q`.
fn is_beyond(p: (i32, i32), q: (i32, i32), r: u32) -> (b: bool)
    ensures
        b == beyond((p.0 as int, p.1 as int), (q.0 as int, q.1 as int), r),
{
    assert((r as u128) * (r as u128) <= 0x1_0000_0000_0000_0000) by (nonlinear_arith)
        requires
            r <= 0xffff_ffff,
    ;
    let rr: u128 = (r as u128) * (r as u128);
    DribbleDetector::distance(p, q) > rr
}

/// `v` holds `x`.
fn ids_contain(v: &Vec<u32>, x: u32) -> (b: bool)
    ensures
        b == v@.contains(x),
{
    let mut i: usize = 0;
    while i < v.len()
        invariant
            i <= v.len(),
            forall|k: int| 0 <= k < i ==> v@[k] != x,
        decreases v.len() - i,
    {
        if v[i] == x {
            return true;
        }
        i = i + 1;
    }
    false
}

/// Some id of `prev` is missing from `cur`.
fn any_disengaged(prev: &Vec<u32>, cur: &Vec<u32>) -> (b: bool)
    ensures
        b == disengaged(prev@, cur@),
{
    let mut i: usize = 0;
    while i < prev.len()
        invariant
            i <= prev.len(),
            forall|k: int| 0 <= k < i ==> cur@.contains(#[trigger] prev@[k]),
        decreases prev.len() - i,
    {
        if !ids_contain(cur, prev[i]) {
            return true;
        }
        i = i + 1;
    }
    false
}

/// The index of the first player with id `id`.
fn find_player(players: &[Player], id: u32) -> (r: Option<usize>)
    ensures
        match r {
            Some(i) => i < players.len() && index_of(players@, id) == Some(i as int),
            None => index_of(players@, id) is None,
        },
{
    let mut i: usize = 0;
    while i < players.len()
        invariant
            i <= players.len(),
            index_of_upto(players@, i as int, id) is None,
        decreases players.len() - i,
    {
        if players[i].id == id {
            assert(index_of_upto(players@, i + 1, id) == Some(i as int));
            proof { lemma_index_of_stable(players@, i + 1, players@.len() as int, id); }
            return Some(i);
        }
        i = i + 1;
    }
    None
}

/// Once found among the first `m` players, the first index with an id stays
/// the same among more.
proof fn lemma_index_of_stable(players: Seq<Player>, m: int, n: int, id: u32)
    requires
        0 <= m <= n,
        index_of_upto(players, m, id) is Some,
    ensures
        index_of_upto(players, n, id) == index_of_upto(players, m, id),
    decreases n - m,
{
    if n > m {
        lemma_index_of_stable(players, m, n - 1, id);
    }
}

/// A player other than `holder` holds the ball.
fn other_player_claims(players: &[Player], holder: u32, ball: Ball, inner: u32) -> (b: bool)
    ensures
        b == other_claims(players@, holder, ball, inner),
{
    let mut i: usize = 0;
    while i < players.len()
        invariant
            i <= players.len(),
            forall|k: int|
                0 <= k < i ==> !(players@[k].id != holder && #[trigger] holds_ball(
                    players@[k],
                    ball,
                    inner,
                )),
        decreases players.len() - i,
    {
        let p = players[i];
        if p.id != holder && is_within((p.x, p.y), (ball.x, ball.y), inner) {
            assert(holds_ball(players@[i as int], ball, inner));
            return true;
        }
        i = i + 1;
    }
    false
}

impl DribbleDetector {
    /// A detector with no active episode, for radii with
    /// `inner_rad < outer_rad` and positive thresholds; any other
    /// configuration is refused.
    ///
    /// - `inner_threshold`: frames with an inner-zone defender after which the
    ///   episode counts as contested, and a possession change as a tackle.
    /// - `outer_threshold`: frames with an outer-zone defender that an
    ///   episode needs to be emitted.
    pub fn new(inner_rad: u32, outer_rad: u32, inner_threshold: u32, outer_threshold: u32) -> (r:
        Result<Self, DetectorConfigError>)
        ensures
            match r {
                Ok(d) => {
                    &&& inner_rad < outer_rad && inner_threshold > 0 && outer_threshold > 0
                    &&& d@ == (DetectorView {
                        outer_rad,
                        inner_rad,
                        inner_threshold,
                        outer_threshold,
                        active: None,
                        outer_frames: 0,
                        inner_frames: 0,
                    })
                    &&& d@.wf()
                },
                Err(DetectorConfigError::RadiiNotOrdered) => inner_rad >= outer_rad,
                Err(DetectorConfigError::ZeroThreshold) => inner_rad < outer_rad && (
                inner_threshold == 0 || outer_threshold == 0),
            },
    {
        if inner_rad >= outer_rad {
            return Err(DetectorConfigError::RadiiNotOrdered);
        }
        if inner_threshold == 0 || outer_threshold == 0 {
            return Err(DetectorConfigError::ZeroThreshold);
        }
        Ok(Self {
            inner_rad,
            outer_rad,
            inner_threshold,
            outer_threshold,
            active_event: None,
            active_outer_frames: 0,
            active_inner_frames: 0,
        })
    }

    /// The square of the Euclidean distance between two points; zone tests
    /// compare it with the square of a radius.
    pub fn distance(p1: (i32, i32), p2: (i32, i32)) -> (r: u128)
        ensures
            r == dist2((p1.0 as int, p1.1 as int), (p2.0 as int, p2.1 as int)),
    {
        let dx: i64 = p1.0 as i64 - p2.0 as i64;
        let dy: i64 = p1.1 as i64 - p2.1 as i64;
        let ax: u128 = if dx < 0 {
            (0 - dx) as u128
        } else {
            dx as u128
        };
        let ay: u128 = if dy < 0 {
            (0 - dy) as u128
        } else {
            dy as u128
        };
        assert(ax * ax == dx * dx) by (nonlinear_arith)
            requires
                ax == dx || ax == -dx,
        ;
        assert(ay * ay == dy * dy) by (nonlinear_arith)
            requires
                ay == dy || ay == -dy,
        ;
        assert(ax * ax <= 0x1_0000_0000_0000_0000) by (nonlinear_arith)
            requires
                ax <= 0x1_0000_0000,
        ;
        assert(ay * ay <= 0x1_0000_0000_0000_0000) by (nonlinear_arith)
            requires
                ay <= 0x1_0000_0000,
        ;
        ax * ax + ay * ay
    }

    /// The defenders of `holder`: the ids of the other players within
    /// `outer_rad` of it, and those among them also within `inner_rad`, both
    /// in frame order.
    pub fn calc_defenders(players: &[Player], holder: &Player, outer_rad: u32, inner_rad: u32) -> (r:
        (Vec<u32>, Vec<u32>))
        ensures
            r.0@ == outer_ids(players@, *holder, outer_rad),
            r.1@ == inner_ids(players@, *holder, outer_rad, inner_rad),
    {
        let mut defenders: Vec<u32> = Vec::new();
        let mut inner_defenders: Vec<u32> = Vec::new();
        let mut i: usize = 0;
        while i < players.len()
            invariant
                i <= players.len(),
                defenders@ == outer_ids(players@.take(i as int), *holder, outer_rad),
                inner_defenders@ == inner_ids(players@.take(i as int), *holder, outer_rad, inner_rad),
            decreases players.len() - i,
        {
            let player = players[i];
            assert(players@.take(i + 1).drop_last() =~= players@.take(i as int));
            if player.id != holder.id {
                if is_within((player.x, player.y), (holder.x, holder.y), outer_rad) {
                    defenders.push(player.id);
                    if is_within((player.x, player.y), (holder.x, holder.y), inner_rad) {
                        inner_defenders.push(player.id);
                    }
                }
            }
            i = i + 1;
        }
        assert(players@.take(players@.len() as int) =~= players@);
        (defenders, inner_defenders)
    }

    /// The index of the player that starts an episode in this frame, if any:
    /// the lowest-id player that holds the ball with an opponent in its outer
    /// zone.
    fn pick_holder(&self, players: &[Player], ball: Ball) -> (r: Option<usize>)
        ensures
            match r {
                Some(i) => i < players.len() && start_choice(players@, ball, self.outer_rad, self.inner_rad)
                    == Some(i as int),
                None => start_choice(players@, ball, self.outer_rad, self.inner_rad) is None,
            },
    {
        let mut best: Option<usize> = None;
        let mut i: usize = 0;
        while i < players.len()
            invariant
                i <= players.len(),
                match best {
                    Some(b) => start_choice_upto(players@, i as int, ball, self.outer_rad, self.inner_rad)
                        == Some(b as int) && b < i,
                    None => start_choice_upto(players@, i as int, ball, self.outer_rad, self.inner_rad) is None,
                },
            decreases players.len() - i,
        {
            let p = players[i];
            if is_within((p.x, p.y), (ball.x, ball.y), self.inner_rad) {
                let (defenders, _inner) = Self::calc_defenders(players, &p, self.outer_rad, self.inner_rad);
                if defenders.len() > 0 {
                    match best {
                        None => {
                            best = Some(i);
                        },
                        Some(b) => {
                            if p.id < players[b].id {
                                best = Some(i);
                            }
                        },
                    }
                }
            }
            i = i + 1;
        }
        best
    }

    /// Process one frame: start an episode from the idle state, or advance the
    /// active one. Returns the episode that this frame finalized, if it was
    /// accepted.
    pub fn process_frame(&mut self, frame: DribleFrame) -> (r: Option<DribbleEvent>)
        requires
            old(self)@.wf(),
            old(self)@.accepts(frame),
        ensures
            final(self)@.wf(),
            (final(self)@, opt_view(r)) == step(old(self)@, frame),
    {
        if self.active_event.is_some() {
            self.update_active_event(&frame)
        } else {
            self.try_start_event(&frame);
            None
        }
    }

    /// Start an episode if some player holds the ball with an opponent in its
    /// outer zone.
    fn try_start_event(&mut self, frame: &DribleFrame)
        requires
            old(self)@.wf(),
            old(self).active_event is None,
        ensures
            final(self)@.wf(),
            (final(self)@, None::<Episode>) == step(old(self)@, *frame),
    {
        match self.pick_holder(frame.players.as_slice(), frame.ball) {
            None => {},
            Some(i) => {
                let holder = frame.players[i];
                let (defenders, inner_defenders) = Self::calc_defenders(
                    frame.players.as_slice(),
                    &holder,
                    self.outer_rad,
                    self.inner_rad,
                );
                let mut event = DribbleEvent::new(holder.id, frame.frame_number);
                let has_inner = inner_defenders.len() > 0;
                event.active_defenders = defenders;
                event.inner_defenders = inner_defenders;
                self.active_event = Some(event);
                self.active_outer_frames = 1;
                self.active_inner_frames = if has_inner {
                    1
                } else {
                    0
                };
            },
        }
    }

    /// Advance the active episode by one frame.
    fn update_active_event(&mut self, frame: &DribleFrame) -> (r: Option<DribbleEvent>)
        requires
            old(self)@.wf(),
            old(self).active_event is Some,
            old(self)@.accepts(*frame),
        ensures
            final(self)@.wf(),
            (final(self)@, opt_view(r)) == step(old(self)@, *frame),
    {
        let ghost d = self@;
        let mut event = self.active_event.take().unwrap();
        let ghost e = event@;
        assert(d.active == Some(e));
        let n = frame.frame_number;
        let players = frame.players.as_slice();
        let hi = match find_player(players, event.possession_holder) {
            Some(hi) => hi,
            None => {
                // The holder left the frame: the episode ends unfinished.
                event.end_frame = Some(n);
                event.finished = false;
                return self.finalize_event(event, n);
            },
        };
        let holder = players[hi];
        if is_beyond((holder.x, holder.y), (frame.ball.x, frame.ball.y), self.inner_rad) {
            if other_player_claims(players, event.possession_holder, frame.ball, self.inner_rad) {
                // Possession change: a tackle if the inner zone was held long
                // enough, else a dribble.
                let tackle = self.active_inner_frames >= self.inner_threshold as u64;
                event.end_frame = Some(n);
                event.finished = true;
                event.detected_tackle = tackle;
                event.detected_dribble = !tackle;
                let ended = self.finalize_event(event, n);
                // The new holder may start an episode in this very frame.
                self.try_start_event(frame);
                return ended;
            }
            // The holder lost the ball and nobody took it.

            event.end_frame = Some(n);
            event.finished = true;
            event.detected_dribble = true;
            return self.finalize_event(event, n);
        }
        let (defenders, new_inner_defenders) = Self::calc_defenders(
            players,
            &holder,
            self.outer_rad,
            self.inner_rad,
        );
        if defenders.len() > 0 {
            self.active_outer_frames = self.active_outer_frames + 1;
        }
        if new_inner_defenders.len() > 0 {
            self.active_inner_frames = self.active_inner_frames + 1;
        }
        event.add_frame(n);
        proof {
            let fr = event.frames@;
            assert forall|i: int, j: int| 0 <= i < j < fr.len() implies fr[i] < fr[j] by {
                if j == fr.len() - 1 && i < j {
                    assert(e.frames[i] <= e.frames.last());
                }
            }
        }
        if any_disengaged(&event.inner_defenders, &new_inner_defenders) {
            // A defender left the inner zone: the holder got past.
            event.end_frame = Some(n);
            event.finished = true;
            event.detected_dribble = true;
            return self.finalize_event(event, n);
        }
        let has_inner = new_inner_defenders.len() > 0;
        let has_outer = defenders.len() > 0;
        event.inner_defenders = new_inner_defenders;
        event.active_defenders = defenders;
        if has_inner && self.active_inner_frames >= self.inner_threshold as u64 {
            event.ever_contested = true;
        }
        if !has_outer {
            // No defender is left in the outer zone.
            event.end_frame = Some(n);
            event.finished = true;
            event.detected_dribble = true;
            return self.finalize_event(event, n);
        }
        self.active_event = Some(event);
        None
    }

    /// End `event` at frame `frame_number`: emit it if the outer counter
    /// reached the outer threshold, and reset the detector either way.
    fn finalize_event(&mut self, event: DribbleEvent, frame_number: u32) -> (r: Option<DribbleEvent>)
        ensures
            final(self)@ == old(self)@.idle(),
            opt_view(r) == if old(self).active_outer_frames >= old(self).outer_threshold {
                Some(Episode { end_frame: Some(frame_number), ..event@ })
            } else {
                None
            },
    {
        let mut event = event;
        event.end_frame = Some(frame_number);
        if self.active_outer_frames < self.outer_threshold as u64 {
            self.reset_active_event();
            return None;
        }
        self.reset_active_event();
        Some(event)
    }

    /// Drop the active episode and zero both counters.
    fn reset_active_event(&mut self)
        ensures
            final(self)@ == old(self)@.idle(),
    {
        self.active_event = None;
        self.active_outer_frames = 0;
        self.active_inner_frames = 0;
    }
}

} // verus!
