use vstd::prelude::*;

verus! {

/// A tracked player in one frame. Coordinates are pitch positions in fixed
/// integer units (the caller picks the unit, e.g. centimetres); radii given to
/// the detector use the same unit.
#[derive(Clone, Copy, Debug)]
pub struct Player {
    pub id: u32,
    pub x: i32,
    pub y: i32,
    /// Reserved; no rule of the detector reads it.
    pub velocity: (i32, i32),
    pub within_inner_rad: bool,
}

/// The ball's pitch position in one frame.
#[derive(Clone, Copy, Debug)]
pub struct Ball {
    pub x: i32,
    pub y: i32,
}

/// One frame handed to the detector.
#[derive(Clone, Debug)]
pub struct DribleFrame {
    pub frame_number: u32,
    pub players: Vec<Player>,
    pub ball: Ball,
}

/// An episode: a possession under defensive pressure, while it is tracked and
/// once it is finalized.
#[derive(Clone, Debug)]
pub struct DribbleEvent {
    pub finished: bool,
    pub detected_dribble: bool,
    pub detected_tackle: bool,
    pub ever_contested: bool,
    pub possession_holder: u32,
    pub start_frame: u32,
    pub end_frame: Option<u32>,
    pub frames: Vec<u32>,
    pub active_defenders: Vec<u32>,
    pub inner_defenders: Vec<u32>,
}

/// The mathematical value of a `DribbleEvent`.
pub struct Episode {
    pub finished: bool,
    pub detected_dribble: bool,
    pub detected_tackle: bool,
    pub ever_contested: bool,
    pub possession_holder: u32,
    pub start_frame: u32,
    pub end_frame: Option<u32>,
    pub frames: Seq<u32>,
    pub active_defenders: Seq<u32>,
    pub inner_defenders: Seq<u32>,
}

impl View for DribbleEvent {
    type V = Episode;

    open spec fn view(&self) -> Episode {
        Episode {
            finished: self.finished,
            detected_dribble: self.detected_dribble,
            detected_tackle: self.detected_tackle,
            ever_contested: self.ever_contested,
            possession_holder: self.possession_holder,
            start_frame: self.start_frame,
            end_frame: self.end_frame,
            frames: self.frames@,
            active_defenders: self.active_defenders@,
            inner_defenders: self.inner_defenders@,
        }
    }
}

/// The views of a list of events.
pub open spec fn episodes_of(v: Seq<DribbleEvent>) -> Seq<Episode> {
    v.map_values(|e: DribbleEvent| e@)
}

/// Copies a list of ids.
pub fn copy_ids(v: &Vec<u32>) -> (r: Vec<u32>)
    ensures
        r@ == v@,
{
    let mut r: Vec<u32> = Vec::new();
    let mut i: usize = 0;
    while i < v.len()
        invariant
            i <= v.len(),
            r@ == v@.take(i as int),
        decreases v.len() - i,
    {
        r.push(v[i]);
        i = i + 1;
        assert(r@ =~= v@.take(i as int));
    }
    assert(v@.take(v.len() as int) =~= v@);
    r
}

impl DribbleEvent {
    /// A new, unclassified episode of `possession_holder` that starts at
    /// `start_frame`, whose frame list holds that frame alone.
    pub fn new(possession_holder: u32, start_frame: u32) -> (r: Self)
        ensures
            r@ == (Episode {
                finished: false,
                detected_dribble: false,
                detected_tackle: false,
                ever_contested: false,
                possession_holder,
                start_frame,
                end_frame: None,
                frames: seq![start_frame],
                active_defenders: Seq::empty(),
                inner_defenders: Seq::empty(),
            }),
    {
        let r = DribbleEvent {
            finished: false,
            detected_dribble: false,
            detected_tackle: false,
            ever_contested: false,
            possession_holder,
            start_frame,
            end_frame: None,
            frames: vec![start_frame],
            active_defenders: Vec::new(),
            inner_defenders: Vec::new(),
        };
        assert(r.frames@ =~= seq![start_frame]);
        r
    }

    /// Appends `frame` to the episode's frame list.
    pub fn add_frame(&mut self, frame: u32)
        ensures
            final(self)@ == (Episode { frames: old(self)@.frames.push(frame), ..old(self)@ }),
    {
        self.frames.push(frame);
    }

    /// A copy of the episode, equal to it field by field.
    pub fn duplicate(&self) -> (r: Self)
        ensures
            r@ == self@,
    {
        DribbleEvent {
            finished: self.finished,
            detected_dribble: self.detected_dribble,
            detected_tackle: self.detected_tackle,
            ever_contested: self.ever_contested,
            possession_holder: self.possession_holder,
            start_frame: self.start_frame,
            end_frame: self.end_frame,
            frames: copy_ids(&self.frames),
            active_defenders: copy_ids(&self.active_defenders),
            inner_defenders: copy_ids(&self.inner_defenders),
        }
    }
}

/// The phases that the detection of one possession passes through.
#[derive(Clone, Copy, Debug, PartialEq, Eq, Structural)]
pub enum DribbleState {
    Search,
    StartTrack,
    TrackClose,
    TrackDuel,
    Detection,
}

} // verus!
