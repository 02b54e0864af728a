//! Distance between cells, counted in steps from neighbour to neighbour.

use super::in_bounds;
use super::neighbor::neigh_offsets;
use super::neighbor::neighbors;
use super::plus;
use vstd::prelude::*;

verus! {

/// The column of `p` where columns are drawn slanting, so that a step down
/// to the right stays in its column.
pub open spec fn skew_column(p: (int, int)) -> int {
    p.0 - (p.1 + p.1 % 2) / 2
}

/// Absolute value.
pub open spec fn abs(v: int) -> int {
    if v < 0 {
        -v
    } else {
        v
    }
}

/// The largest of three numbers.
pub open spec fn max3(a: int, b: int, c: int) -> int {
    if a >= b && a >= c {
        a
    } else if b >= c {
        b
    } else {
        c
    }
}

/// Number of steps from `a` to `b`, each step leading to a neighbour.
pub open spec fn hex_distance(a: (int, int), b: (int, int)) -> int {
    let dq = skew_column(b) - skew_column(a);
    let dr = b.1 - a.1;
    max3(abs(dq), abs(dr), abs(dq + dr))
}

/// Whether `q` is one of the six neighbours of `p`.
pub open spec fn adjacent(p: (int, int), q: (int, int)) -> bool {
    exists|i: int| 0 <= i < 6 && q == plus(p, #[trigger] neigh_offsets(p.1)[i])
}

/// The cells one step away from a cell are its six neighbours.
pub proof fn lemma_distance_one(p: (int, int), q: (int, int))
    ensures
        hex_distance(p, q) == 1 <==> adjacent(p, q),
{
    let offs = neigh_offsets(p.1);
    if hex_distance(p, q) == 1 {
        let d = (q.0 - p.0, q.1 - p.1);
        assert(d == offs[0] || d == offs[1] || d == offs[2] || d == offs[3] || d == offs[4] || d
            == offs[5]);
    }
    if adjacent(p, q) {
        let i = choose|i: int| 0 <= i < 6 && q == plus(p, #[trigger] neigh_offsets(p.1)[i]);
        assert(q == plus(p, offs[i]));
    }
}

/// Every neighbour that the lookup gives lies one step away.
pub proof fn lemma_neighbors_are_one_step(center: (int, int), size: (int, int), i: int)
    requires
        0 <= i < 6,
    ensures
        neighbors(center, size)[i] matches Some(p) ==> hex_distance(center, p) == 1,
{
    let p = plus(center, neigh_offsets(center.1)[i]);
    lemma_distance_one(center, p);
}

/// Every cell on the map that lies one step away is a neighbour that the
/// lookup gives; the result is its slot.
pub proof fn lemma_one_step_is_neighbor(center: (int, int), size: (int, int), p: (int, int)) -> (i:
    int)
    requires
        in_bounds(p, size),
        hex_distance(center, p) == 1,
    ensures
        0 <= i < 6,
        neighbors(center, size)[i] == Some(p),
{
    lemma_distance_one(center, p);
    choose|i: int| 0 <= i < 6 && p == plus(center, #[trigger] neigh_offsets(center.1)[i])
}

/// A step changes the distance to a third cell by one at most.
pub proof fn lemma_step_changes_distance_by_one(c: (int, int), p: (int, int), q: (int, int))
    requires
        adjacent(p, q),
    ensures
        hex_distance(c, p) - 1 <= hex_distance(c, q) <= hex_distance(c, p) + 1,
{
    let offs = neigh_offsets(p.1);
    let i = choose|i: int| 0 <= i < 6 && q == plus(p, #[trigger] neigh_offsets(p.1)[i]);
    assert(q == plus(p, offs[i]));
}

/// From a cell that is not the goal, some step leads closer to it.
pub proof fn lemma_some_step_leads_closer(c: (int, int), p: (int, int)) -> (q: (int, int))
    requires
        c != p,
    ensures
        adjacent(p, q),
        hex_distance(c, q) == hex_distance(c, p) - 1,
{
    let offs = neigh_offsets(p.1);
    let q0 = plus(p, offs[0]);
    let q1 = plus(p, offs[1]);
    let q2 = plus(p, offs[2]);
    let q3 = plus(p, offs[3]);
    let q4 = plus(p, offs[4]);
    let q5 = plus(p, offs[5]);
    let d = hex_distance(c, p);
    if hex_distance(c, q0) == d - 1 {
        q0
    } else if hex_distance(c, q1) == d - 1 {
        q1
    } else if hex_distance(c, q2) == d - 1 {
        q2
    } else if hex_distance(c, q3) == d - 1 {
        q3
    } else if hex_distance(c, q4) == d - 1 {
        q4
    } else {
        assert(hex_distance(c, q5) == d - 1);
        q5
    }
}

/// The distance does not depend on the direction.
pub proof fn lemma_distance_symmetric(a: (int, int), b: (int, int))
    ensures
        hex_distance(a, b) == hex_distance(b, a),
        hex_distance(a, b) >= 0,
        hex_distance(a, b) == 0 <==> a == b,
{
}

/// Whether `walk` leads from `a` to `b`, each cell of it a neighbour of the
/// one before.
pub open spec fn is_walk(walk: Seq<(int, int)>, a: (int, int), b: (int, int)) -> bool {
    &&& walk.len() >= 1
    &&& walk[0] == a
    &&& walk[walk.len() - 1] == b
    &&& forall|i: int| 0 <= i < walk.len() - 1 ==> adjacent(#[trigger] walk[i], walk[i + 1])
}

/// No walk from `a` to `b` takes fewer steps than their distance.
pub proof fn lemma_no_shorter_walk(walk: Seq<(int, int)>, a: (int, int), b: (int, int))
    requires
        is_walk(walk, a, b),
    ensures
        hex_distance(a, b) <= walk.len() - 1,
    decreases walk.len(),
{
    if walk.len() >= 2 {
        let before = walk.drop_last();
        let p = walk[walk.len() - 2];
        assert(adjacent(walk[walk.len() - 2], walk[walk.len() - 2 + 1]));
        assert(is_walk(before, a, p));
        lemma_no_shorter_walk(before, a, p);
        lemma_step_changes_distance_by_one(a, p, b);
    }
}

/// Some walk from `a` to `b` takes exactly as many steps as their
/// distance.
pub proof fn lemma_shortest_walk(a: (int, int), b: (int, int)) -> (walk: Seq<(int, int)>)
    ensures
        is_walk(walk, a, b),
        walk.len() - 1 == hex_distance(a, b),
    decreases hex_distance(a, b),
{
    if a == b {
        seq![a]
    } else {
        let q = lemma_some_step_leads_closer(a, b);
        lemma_distance_one(b, q);
        lemma_distance_symmetric(b, q);
        lemma_distance_one(q, b);
        let before = lemma_shortest_walk(a, q);
        let walk = before.push(b);
        assert forall|i: int| 0 <= i < walk.len() - 1 implies adjacent(
            #[trigger] walk[i],
            walk[i + 1],
        ) by {
            if i < before.len() - 1 {
                assert(adjacent(before[i], before[i + 1]));
            }
        }
        walk
    }
}

} // verus!
