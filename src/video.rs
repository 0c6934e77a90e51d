use vstd::prelude::*;

use crate::detector::{lemma_step_wf, lemma_unpressured_step, step, unpressured, DetectorView, DribbleDetector};
use crate::merge::{combine_consecutive_events, merged};
use crate::models::{episodes_of, DribbleEvent, DribleFrame, Episode};

verus! {

/// The episode is a dribble or a tackle.
pub open spec fn classified(e: Episode) -> bool {
    e.detected_dribble || e.detected_tackle
}

/// Frame numbers strictly ascend.
pub open spec fn ascending(frames: Seq<DribleFrame>) -> bool {
    forall|i: int, j: int| 0 <= i < j < frames.len() ==> frames[i].frame_number < frames[j].frame_number
}

/// The detector fed `frames` in order: its final state, and the classified
/// episodes it emitted, in the order emitted.
pub open spec fn run(d: DetectorView, frames: Seq<DribleFrame>) -> (DetectorView, Seq<Episode>)
    decreases frames.len(),
{
    if frames.len() == 0 {
        (d, Seq::empty())
    } else {
        let prev = run(d, frames.drop_last());
        let next = step(prev.0, frames.last());
        (
            next.0,
            match next.1 {
                Some(e) => if classified(e) {
                    prev.1.push(e)
                } else {
                    prev.1
                },
                None => prev.1,
            },
        )
    }
}

/// Feeds `frames` to the detector in order and returns the classified
/// episodes it emits, in order.
pub fn collect_events(detector: &mut DribbleDetector, frames: Vec<DribleFrame>) -> (r: Vec<DribbleEvent>)
    requires
        old(detector)@.wf(),
        ascending(frames@),
        frames.len() > 0 ==> old(detector)@.accepts(frames@[0]),
    ensures
        final(detector)@.wf(),
        (final(detector)@, episodes_of(r@)) == run(old(detector)@, frames@),
{
    let ghost all = frames@;
    let ghost d0 = detector@;
    let mut rest = frames;
    let mut out: Vec<DribbleEvent> = Vec::new();
    let mut i: usize = 0;
    while rest.len() > 0
        invariant
            i + rest.len() == all.len(),
            all.len() <= usize::MAX,
            rest@ == all.skip(i as int),
            ascending(all),
            detector@.wf(),
            (detector@, episodes_of(out@)) == run(d0, all.take(i as int)),
            i < all.len() ==> detector@.accepts(all[i as int]),
        decreases rest.len(),
    {
        let frame = rest.remove(0);
        let ghost before = detector@;
        proof {
            assert(frame == all[i as int]);
            lemma_step_wf(before, frame);
            let t = all.take(i + 1);
            assert(t.drop_last() =~= all.take(i as int));
            assert(t.last() == frame);
        }
        let emitted = detector.process_frame(frame);
        match emitted {
            Some(e) => {
                if e.detected_dribble || e.detected_tackle {
                    out.push(e);
                }
            },
            None => {},
        }
        assert(episodes_of(out@) =~= run(d0, all.take(i + 1)).1);
        i = i + 1;
        assert(rest@ =~= all.skip(i as int));
    }
    assert(all.take(i as int) =~= all);
    out
}

/// Feeds one video's frames to the detector and merges the episodes it emits.
pub fn detect_video_events(detector: &mut DribbleDetector, frames: Vec<DribleFrame>) -> (r: Vec<DribbleEvent>)
    requires
        old(detector)@.wf(),
        ascending(frames@),
        frames.len() > 0 ==> old(detector)@.accepts(frames@[0]),
    ensures
        final(detector)@.wf(),
        final(detector)@ == run(old(detector)@, frames@).0,
        episodes_of(r@) == merged(run(old(detector)@, frames@).1),
{
    let events = collect_events(detector, frames);
    combine_consecutive_events(events)
}

/// Two idle detectors with the same configuration, fed the same frames, end in
/// the same state and emit the same episodes, before and after merging.
pub proof fn lemma_deterministic(d1: DetectorView, d2: DetectorView, frames: Seq<DribleFrame>)
    requires
        d1.wf(),
        d2.wf(),
        d1.active is None,
        d2.active is None,
        d1.outer_rad == d2.outer_rad,
        d1.inner_rad == d2.inner_rad,
        d1.inner_threshold == d2.inner_threshold,
        d1.outer_threshold == d2.outer_threshold,
    ensures
        run(d1, frames) == run(d2, frames),
        merged(run(d1, frames).1) == merged(run(d2, frames).1),
{
    assert(d1 == d2);
}

/// An idle detector fed frames in none of which a ball holder has an opponent
/// within the outer radius stays idle and emits no episode.
pub proof fn lemma_no_pressure_no_events(d: DetectorView, frames: Seq<DribleFrame>)
    requires
        d.active is None,
        forall|i: int| 0 <= i < frames.len() ==> unpressured(#[trigger] frames[i], d.outer_rad, d.inner_rad),
    ensures
        run(d, frames) == (d, Seq::<Episode>::empty()),
        merged(run(d, frames).1) == Seq::<Episode>::empty(),
    decreases frames.len(),
{
    if frames.len() > 0 {
        lemma_no_pressure_no_events(d, frames.drop_last());
        lemma_unpressured_step(d, frames.last());
    }
    assert(crate::merge::sort_by_start(Seq::<Episode>::empty()) == Seq::<Episode>::empty());
    assert(crate::merge::merge_sorted(Seq::<Episode>::empty()) == Seq::<Episode>::empty());
}

} // verus!
