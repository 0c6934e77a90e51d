use vstd::prelude::*;

use crate::models::{DribbleEvent, Episode};

verus! {

/// Frames of context added before and after each exported interval.
pub const EXPORT_MARGIN: u32 = 20;

/// Metadata of an export document.
pub struct ExportInfo {
    pub version: String,
    pub generated_at: String,
}

/// The exported record of one episode.
#[derive(Clone, Copy, Debug, PartialEq, Eq, Structural)]
pub struct DribbleLabel {
    pub finished: bool,
    pub detected_dribble: bool,
    pub detected_tackle: bool,
    pub ever_contested: bool,
    pub possession_holder: u32,
    pub start_frame: u32,
    pub end_frame: Option<u32>,
}

/// The record of an episode: its flags, holder and interval.
pub open spec fn label_of(e: Episode) -> DribbleLabel {
    DribbleLabel {
        finished: e.finished,
        detected_dribble: e.detected_dribble,
        detected_tackle: e.detected_tackle,
        ever_contested: e.ever_contested,
        possession_holder: e.possession_holder,
        start_frame: e.start_frame,
        end_frame: e.end_frame,
    }
}

/// `l` with its interval widened by the margin on both sides, clamped to the
/// range of `u32`.
pub open spec fn padded(l: DribbleLabel) -> DribbleLabel {
    DribbleLabel {
        start_frame: if l.start_frame >= EXPORT_MARGIN {
            (l.start_frame - EXPORT_MARGIN) as u32
        } else {
            0
        },
        end_frame: match l.end_frame {
            Some(f) => Some(
                if f + EXPORT_MARGIN <= u32::MAX {
                    (f + EXPORT_MARGIN) as u32
                } else {
                    u32::MAX
                },
            ),
            None => None,
        },
        ..l
    }
}

impl<'a> From<&'a DribbleEvent> for DribbleLabel {
    fn from(event: &'a DribbleEvent) -> (r: DribbleLabel)
        ensures
            r == label_of(event@),
    {
        DribbleLabel {
            finished: event.finished,
            detected_dribble: event.detected_dribble,
            detected_tackle: event.detected_tackle,
            ever_contested: event.ever_contested,
            possession_holder: event.possession_holder,
            start_frame: event.start_frame,
            end_frame: event.end_frame,
        }
    }
}

impl<'a> vstd::std_specs::convert::FromSpecImpl<&'a DribbleEvent> for DribbleLabel {
    open spec fn obeys_from_spec() -> bool {
        true
    }

    open spec fn from_spec(event: &'a DribbleEvent) -> DribbleLabel {
        label_of(event@)
    }
}

impl DribbleLabel {
    /// The record with its interval widened by `EXPORT_MARGIN` frames on
    /// both sides, clamped to the range of `u32`.
    pub fn padded(self) -> (r: DribbleLabel)
        ensures
            r == padded(self),
    {
        let end_frame = match self.end_frame {
            Some(f) => Some(f.saturating_add(EXPORT_MARGIN)),
            None => None,
        };
        DribbleLabel { start_frame: self.start_frame.saturating_sub(EXPORT_MARGIN), end_frame, ..self }
    }
}

/// The padded records of a video's episodes, in order.
pub fn export_labels(events: &Vec<DribbleEvent>) -> (r: Vec<DribbleLabel>)
    ensures
        r@.len() == events@.len(),
        forall|i: int| 0 <= i < events@.len() ==> r@[i] == padded(label_of(#[trigger] events@[i]@)),
{
    let mut r: Vec<DribbleLabel> = Vec::new();
    let mut i: usize = 0;
    while i < events.len()
        invariant
            i <= events.len(),
            r@.len() == i,
            forall|k: int| 0 <= k < i ==> r@[k] == padded(label_of(#[trigger] events@[k]@)),
        decreases events.len() - i,
    {
        let label = DribbleLabel::from(&events[i]);
        r.push(label.padded());
        i = i + 1;
    }
    r
}

/// One video's exported episodes.
pub struct VideoDribbleEvents {
    pub video_id: String,
    pub file_name: String,
    pub dribble_events: Vec<DribbleLabel>,
}

/// The export document: metadata and one entry per video.
pub struct DribbleEventsExport {
    pub info: ExportInfo,
    pub videos: Vec<VideoDribbleEvents>,
}

} // verus!
