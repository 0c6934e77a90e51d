use vstd::prelude::*;

use crate::models::{episodes_of, DribbleEvent, Episode};

verus! {

// ---------------------------------------------------------------------------
// Ordering by start frame
// ---------------------------------------------------------------------------

/// `e` inserted into `s` after every episode that starts no later than it
/// (counting from the back).
pub open spec fn insert_by_start(s: Seq<Episode>, e: Episode) -> Seq<Episode>
    decreases s.len(),
{
    if s.len() == 0 {
        seq![e]
    } else if s.last().start_frame <= e.start_frame {
        s.push(e)
    } else {
        insert_by_start(s.drop_last(), e).push(s.last())
    }
}

/// `s` sorted by start frame, stably: episodes with equal start frames keep
/// their order.
pub open spec fn sort_by_start(s: Seq<Episode>) -> Seq<Episode>
    decreases s.len(),
{
    if s.len() == 0 {
        Seq::empty()
    } else {
        insert_by_start(sort_by_start(s.drop_last()), s.last())
    }
}

/// Where `insert_by_start` puts an episode: after position `k`, every episode
/// of `s` starts later than `e`, and the one before it does not.
proof fn lemma_insert_at(s: Seq<Episode>, e: Episode, k: int)
    requires
        0 <= k <= s.len(),
        forall|j: int| k <= j < s.len() ==> s[j].start_frame > e.start_frame,
        k > 0 ==> s[k - 1].start_frame <= e.start_frame,
    ensures
        insert_by_start(s, e) == s.insert(k, e),
    decreases s.len(),
{
    if s.len() == 0 {
        assert(s.insert(k, e) =~= seq![e]);
    } else if s.last().start_frame <= e.start_frame {
        assert(k == s.len());
        assert(s.insert(k, e) =~= s.push(e));
    } else {
        lemma_insert_at(s.drop_last(), e, k);
        assert(s.drop_last().insert(k, e).push(s.last()) =~= s.insert(k, e));
    }
}

// ---------------------------------------------------------------------------
// Merging
// ---------------------------------------------------------------------------

/// Both episodes are tackles, or both are dribbles.
pub open spec fn same_type(a: Episode, b: Episode) -> bool {
    (a.detected_tackle && b.detected_tackle) || (a.detected_dribble && b.detected_dribble)
}

/// `next` starts at most one frame after `cur` ends, and has its class.
pub open spec fn mergeable(cur: Episode, next: Episode) -> bool {
    match cur.end_frame {
        Some(end) => next.start_frame <= end + 1 && same_type(cur, next),
        None => false,
    }
}

/// The later of two end frames.
pub open spec fn later_end(a: Option<u32>, b: Option<u32>) -> Option<u32> {
    match (a, b) {
        (Some(x), Some(y)) => Some(
            if x >= y {
                x
            } else {
                y
            },
        ),
        (Some(x), None) => Some(x),
        (None, y) => y,
    }
}

/// `cur` extended by `next`: frames appended, the later end, and each flag
/// the disjunction of both.
pub open spec fn combine(cur: Episode, next: Episode) -> Episode {
    Episode {
        frames: cur.frames + next.frames,
        end_frame: later_end(cur.end_frame, next.end_frame),
        detected_tackle: cur.detected_tackle || next.detected_tackle,
        detected_dribble: cur.detected_dribble || next.detected_dribble,
        ever_contested: cur.ever_contested || next.ever_contested,
        ..cur
    }
}

/// `e` added to the merged list `acc`: folded into its last episode where
/// mergeable, else appended.
pub open spec fn absorb(acc: Seq<Episode>, e: Episode) -> Seq<Episode> {
    if acc.len() > 0 && mergeable(acc.last(), e) {
        acc.update(acc.len() - 1, combine(acc.last(), e))
    } else {
        acc.push(e)
    }
}

/// The merge pass over episodes in the order given.
pub open spec fn merge_sorted(s: Seq<Episode>) -> Seq<Episode>
    decreases s.len(),
{
    if s.len() == 0 {
        Seq::empty()
    } else {
        absorb(merge_sorted(s.drop_last()), s.last())
    }
}

/// The merge of one video's accepted episodes.
pub open spec fn merged(s: Seq<Episode>) -> Seq<Episode> {
    merge_sorted(sort_by_start(s))
}

/// Two accepted episodes, the first starting no later than the second, where
/// each is a tackle or a dribble and not both: they merge into one episode
/// spanning both when the second starts at most one frame after the first
/// ends and they have the same class; otherwise both stay, in order.
pub proof fn lemma_merge_pair(a: Episode, b: Episode)
    requires
        a.end_frame is Some,
        b.end_frame is Some,
        a.start_frame <= b.start_frame,
        a.detected_tackle != a.detected_dribble,
        b.detected_tackle != b.detected_dribble,
    ensures
        b.start_frame <= a.end_frame->0 + 1 && a.detected_tackle == b.detected_tackle ==> merged(
            seq![a, b],
        ) == seq![combine(a, b)],
        combine(a, b).start_frame == a.start_frame,
        combine(a, b).end_frame == Some(
            if a.end_frame->0 >= b.end_frame->0 {
                a.end_frame->0
            } else {
                b.end_frame->0
            },
        ),
        combine(a, b).frames == a.frames + b.frames,
        !(b.start_frame <= a.end_frame->0 + 1 && a.detected_tackle == b.detected_tackle) ==> merged(
            seq![a, b],
        ) == seq![a, b],
{
    let s = seq![a, b];
    assert(s.drop_last() =~= seq![a]);
    assert(seq![a].drop_last() =~= Seq::<Episode>::empty());
    assert(sort_by_start(Seq::<Episode>::empty()) == Seq::<Episode>::empty());
    assert(seq![a].last() == a);
    assert(sort_by_start(seq![a]) == insert_by_start(Seq::empty(), a));
    assert(sort_by_start(seq![a]) =~= seq![a]);
    assert(seq![a].push(b) =~= s);
    assert(sort_by_start(s) == s);
    assert(merge_sorted(Seq::<Episode>::empty()) == Seq::<Episode>::empty());
    assert(merge_sorted(seq![a]) == absorb(merge_sorted(Seq::empty()), a));
    assert(merge_sorted(seq![a]) =~= seq![a]);
    assert(merge_sorted(s) == absorb(seq![a], b));
    if b.start_frame <= a.end_frame->0 + 1 && a.detected_tackle == b.detected_tackle {
        assert(seq![a].update(0, combine(a, b)) =~= seq![combine(a, b)]);
    }
}

/// Start frames never decrease along `s`.
pub open spec fn ordered_by_start(s: Seq<Episode>) -> bool {
    forall|i: int, j: int| 0 <= i < j < s.len() ==> s[i].start_frame <= s[j].start_frame
}

proof fn lemma_insert_keeps_order(s: Seq<Episode>, e: Episode)
    requires
        ordered_by_start(s),
    ensures
        ordered_by_start(insert_by_start(s, e)),
        insert_by_start(s, e).len() == s.len() + 1,
        forall|i: int|
            0 <= i < insert_by_start(s, e).len() ==> #[trigger] insert_by_start(s, e)[i] == e || exists|
                k: int,
            | 0 <= k < s.len() && s[k] == insert_by_start(s, e)[i],
    decreases s.len(),
{
    if s.len() > 0 && s.last().start_frame > e.start_frame {
        let p = s.drop_last();
        lemma_insert_keeps_order(p, e);
        let t = insert_by_start(p, e);
        let r = t.push(s.last());
        assert forall|i: int, j: int| 0 <= i < j < r.len() implies r[i].start_frame <= r[j].start_frame by {
            if j == r.len() - 1 && t[i] != e {
                let k = choose|k: int| 0 <= k < p.len() && p[k] == t[i];
                assert(s[k] == t[i]);
            }
        }
        assert forall|i: int| 0 <= i < r.len() implies #[trigger] r[i] == e || exists|k: int|
            0 <= k < s.len() && s[k] == r[i] by {
            if i == r.len() - 1 {
                assert(s[s.len() - 1] == r[i]);
            } else if t[i] != e {
                let k = choose|k: int| 0 <= k < p.len() && p[k] == t[i];
                assert(s[k] == r[i]);
            }
        }
    } else if s.len() > 0 {
        assert forall|i: int| 0 <= i < s.push(e).len() implies #[trigger] s.push(e)[i] == e || exists|
            k: int,
        | 0 <= k < s.len() && s[k] == s.push(e)[i] by {
            if i < s.len() {
                assert(s[i] == s.push(e)[i]);
            }
        }
    }
}

proof fn lemma_sort_orders(s: Seq<Episode>)
    ensures
        ordered_by_start(sort_by_start(s)),
        sort_by_start(s).len() == s.len(),
    decreases s.len(),
{
    if s.len() > 0 {
        lemma_sort_orders(s.drop_last());
        lemma_insert_keeps_order(sort_by_start(s.drop_last()), s.last());
    }
}

proof fn lemma_merge_keeps_order(s: Seq<Episode>)
    requires
        ordered_by_start(s),
    ensures
        ordered_by_start(merge_sorted(s)),
        s.len() > 0 ==> forall|i: int|
            0 <= i < merge_sorted(s).len() ==> (#[trigger] merge_sorted(s)[i]).start_frame
                <= s.last().start_frame,
    decreases s.len(),
{
    if s.len() > 0 {
        let p = s.drop_last();
        lemma_merge_keeps_order(p);
        if p.len() > 0 {
            assert(p.last().start_frame <= s.last().start_frame);
        }
    }
}

/// The merged episodes are ordered by start frame.
pub proof fn lemma_merged_ordered(s: Seq<Episode>)
    ensures
        ordered_by_start(merged(s)),
{
    lemma_sort_orders(s);
    lemma_merge_keeps_order(sort_by_start(s));
}

// ---------------------------------------------------------------------------
// The executable merge pass
// ---------------------------------------------------------------------------

/// Appends the ids of `src` to `dst`.
fn append_ids(dst: &mut Vec<u32>, src: &Vec<u32>)
    ensures
        final(dst)@ == old(dst)@ + src@,
{
    let mut i: usize = 0;
    while i < src.len()
        invariant
            i <= src.len(),
            dst@ == old(dst)@ + src@.take(i as int),
        decreases src.len() - i,
    {
        dst.push(src[i]);
        i = i + 1;
        assert(dst@ =~= old(dst)@ + src@.take(i as int));
    }
    assert(src@.take(src.len() as int) =~= src@);
}

/// The episodes sorted by start frame, stably.
fn sort_by_start_frame(events: &Vec<DribbleEvent>) -> (r: Vec<DribbleEvent>)
    ensures
        episodes_of(r@) == sort_by_start(episodes_of(events@)),
{
    let mut out: Vec<DribbleEvent> = Vec::new();
    let mut i: usize = 0;
    while i < events.len()
        invariant
            i <= events.len(),
            episodes_of(out@) == sort_by_start(episodes_of(events@).take(i as int)),
        decreases events.len() - i,
    {
        let e = events[i].duplicate();
        let ghost s = episodes_of(out@);
        let mut k: usize = out.len();
        while k > 0 && out[k - 1].start_frame > e.start_frame
            invariant
                k <= out.len(),
                s == episodes_of(out@),
                forall|j: int| k <= j < s.len() ==> s[j].start_frame > e.start_frame,
            decreases k,
        {
            k = k - 1;
        }
        proof {
            lemma_insert_at(s, e@, k as int);
            let t = episodes_of(events@).take(i + 1);
            assert(t.drop_last() =~= episodes_of(events@).take(i as int));
            assert(t.last() == e@);
        }
        out.insert(k, e);
        assert(episodes_of(out@) =~= s.insert(k as int, e@));
        i = i + 1;
    }
    assert(episodes_of(events@).take(events.len() as int) =~= episodes_of(events@));
    out
}

/// `next` starts at most one frame after `cur` ends and has its class.
fn can_merge(cur: &DribbleEvent, next: &DribbleEvent) -> (b: bool)
    ensures
        b == mergeable(cur@, next@),
{
    match cur.end_frame {
        Some(end) => {
            let same = (cur.detected_tackle && next.detected_tackle) || (cur.detected_dribble
                && next.detected_dribble);
            (next.start_frame as u64) <= (end as u64) + 1 && same
        },
        None => false,
    }
}

/// Merges one video's accepted episodes: sorted by start frame, each episode
/// is folded into the one before it when it starts at most one frame after
/// that one ends and both are tackles or both are dribbles; the merged episode
/// keeps the earlier start, takes the later end, appends the frames, and ors
/// the flags.
pub fn combine_consecutive_events(events: Vec<DribbleEvent>) -> (r: Vec<DribbleEvent>)
    ensures
        episodes_of(r@) == merged(episodes_of(events@)),
        ordered_by_start(episodes_of(r@)),
{
    proof {
        lemma_merged_ordered(episodes_of(events@));
    }
    let sorted = sort_by_start_frame(&events);
    let ghost ss = episodes_of(sorted@);
    let mut out: Vec<DribbleEvent> = Vec::new();
    let mut i: usize = 0;
    while i < sorted.len()
        invariant
            i <= sorted.len(),
            ss == episodes_of(sorted@),
            episodes_of(out@) == merge_sorted(ss.take(i as int)),
        decreases sorted.len() - i,
    {
        let next = &sorted[i];
        let ghost acc = episodes_of(out@);
        proof {
            let t = ss.take(i + 1);
            assert(t.drop_last() =~= ss.take(i as int));
            assert(t.last() == next@);
        }
        let n = out.len();
        if n > 0 && can_merge(&out[n - 1], next) {
            let mut last = out.pop().unwrap();
            assert(last@ == acc.last());
            append_ids(&mut last.frames, &next.frames);
            last.end_frame = match (last.end_frame, next.end_frame) {
                (Some(x), Some(y)) => Some(
                    if x >= y {
                        x
                    } else {
                        y
                    },
                ),
                (Some(x), None) => Some(x),
                (None, y) => y,
            };
            last.detected_tackle = last.detected_tackle || next.detected_tackle;
            last.detected_dribble = last.detected_dribble || next.detected_dribble;
            last.ever_contested = last.ever_contested || next.ever_contested;
            assert(last@ == combine(acc.last(), next@));
            out.push(last);
            assert(episodes_of(out@) =~= acc.update(acc.len() - 1, combine(acc.last(), next@)));
        } else {
            out.push(next.duplicate());
            assert(episodes_of(out@) =~= acc.push(next@));
        }
        i = i + 1;
    }
    assert(ss.take(sorted.len() as int) =~= ss);
    out
}

} // verus!
