use vstd::prelude::*;

use crate::models::{Ball, Player};

verus! {

/// Square of the Euclidean distance between two points.
pub open spec fn dist2(a: (int, int), b: (int, int)) -> int {
    (a.0 - b.0) * (a.0 - b.0) + (a.1 - b.1) * (a.1 - b.1)
}

pub open spec fn player_pos(p: Player) -> (int, int) {
    (p.x as int, p.y as int)
}

pub open spec fn ball_pos(b: Ball) -> (int, int) {
    (b.x as int, b.y as int)
}

/// `a` lies strictly closer than `r` to `b`: for a radius `r >= 0` the
/// comparison of squares is the comparison of distances.
pub open spec fn within(a: (int, int), b: (int, int), r: u32) -> bool {
    dist2(a, b) < r * r
}

/// `a` lies strictly farther than `r` from `b`.
pub open spec fn beyond(a: (int, int), b: (int, int), r: u32) -> bool {
    dist2(a, b) > r * r
}

/// Ids, in frame order, of the players other than `holder` that stand within
/// `outer` of the holder.
pub open spec fn outer_ids(players: Seq<Player>, holder: Player, outer: u32) -> Seq<u32>
    decreases players.len(),
{
    if players.len() == 0 {
        Seq::empty()
    } else {
        let prev = outer_ids(players.drop_last(), holder, outer);
        let p = players.last();
        if p.id != holder.id && within(player_pos(p), player_pos(holder), outer) {
            prev.push(p.id)
        } else {
            prev
        }
    }
}

/// Ids, in frame order, of the players of `outer_ids(players, holder, outer)`
/// that also stand within `inner` of the holder.
pub open spec fn inner_ids(players: Seq<Player>, holder: Player, outer: u32, inner: u32) -> Seq<u32>
    decreases players.len(),
{
    if players.len() == 0 {
        Seq::empty()
    } else {
        let prev = inner_ids(players.drop_last(), holder, outer, inner);
        let p = players.last();
        if p.id != holder.id && within(player_pos(p), player_pos(holder), outer) && within(
            player_pos(p),
            player_pos(holder),
            inner,
        ) {
            prev.push(p.id)
        } else {
            prev
        }
    }
}

/// Every inner-zone defender is an outer-zone defender, for radii with
/// `inner <= outer`.
pub proof fn lemma_inner_subset_outer(players: Seq<Player>, holder: Player, outer: u32, inner: u32)
    requires
        inner <= outer,
    ensures
        forall|id: u32|
            inner_ids(players, holder, outer, inner).contains(id) ==> outer_ids(
                players,
                holder,
                outer,
            ).contains(id),
    decreases players.len(),
{
    if players.len() > 0 {
        lemma_inner_subset_outer(players.drop_last(), holder, outer, inner);
        let pi = inner_ids(players.drop_last(), holder, outer, inner);
        let po = outer_ids(players.drop_last(), holder, outer);
        let p = players.last();
        assert forall|id: u32|
            inner_ids(players, holder, outer, inner).contains(id) implies outer_ids(
                players,
                holder,
                outer,
            ).contains(id) by {
            let ci = inner_ids(players, holder, outer, inner);
            let co = outer_ids(players, holder, outer);
            let k = choose|k: int| 0 <= k < ci.len() && ci[k] == id;
            if k < pi.len() {
                assert(pi[k] == id);
                assert(po.contains(id));
                let m = choose|m: int| 0 <= m < po.len() && po[m] == id;
                assert(co[m] == id);
            } else {
                assert(id == p.id);
                assert(co[co.len() - 1] == id);
            }
        }
    }
}

} // verus!
