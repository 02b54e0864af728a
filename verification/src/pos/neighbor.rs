//! The six neighbours of a cell.
//!
//! Rows are shifted against each other by half a cell, so which cells
//! touch a given one depends on whether its row is even or odd.

use super::in_bounds;
use super::shifted;
use super::HMapDist;
use super::HMapPos;
use super::HMapSize;
use vstd::prelude::*;

verus! {

/// The offsets to the six neighbours of a cell in row `center_y`, in the
/// order upper left, upper right, left, right, lower left, lower right.
pub open spec fn neigh_offsets(center_y: int) -> Seq<(int, int)> {
    if center_y % 2 == 0 {
        seq![
            (0int, -1int),
            (1int, -1int),
            (-1int, 0int),
            (1int, 0int),
            (0int, 1int),
            (1int, 1int),
        ]
    } else {
        seq![
            (-1int, -1int),
            (0int, -1int),
            (-1int, 0int),
            (1int, 0int),
            (-1int, 1int),
            (0int, 1int),
        ]
    }
}

/// The six neighbours of `center` on a map of extent `size`, in the order
/// of [`neigh_offsets`]; a neighbour that would lie off the map is absent.
pub open spec fn neighbors(center: (int, int), size: (int, int)) -> Seq<Option<(int, int)>> {
    Seq::new(6, |i: int| shifted(center, neigh_offsets(center.1)[i], size))
}

/// Offsets to the neighbours of a cell in an odd row.
fn neigh_y_odd() -> (t: [HMapDist; 6])
    ensures
        t.deep_view() == neigh_offsets(1),
{
    [
        HMapDist::new(-1, -1),
        HMapDist::new(0, -1),
        HMapDist::new(-1, 0),
        HMapDist::new(1, 0),
        HMapDist::new(-1, 1),
        HMapDist::new(0, 1),
    ]
}

/// Offsets to the neighbours of a cell in an even row.
fn neigh_y_even() -> (t: [HMapDist; 6])
    ensures
        t.deep_view() == neigh_offsets(0),
{
    [
        HMapDist::new(0, -1),
        HMapDist::new(1, -1),
        HMapDist::new(-1, 0),
        HMapDist::new(1, 0),
        HMapDist::new(0, 1),
        HMapDist::new(1, 1),
    ]
}

/// The six neighbours of `center` on a map of extent `size`, each slot
/// empty where that neighbour would lie off the map.
pub fn neigh_hex(center: &HMapPos, size: &HMapSize) -> (r: [Option<HMapPos>; 6])
    ensures
        r.deep_view() == neighbors(center@, size@),
        forall|i: int| 0 <= i < 6 ==> (#[trigger] r[i] matches Some(p) ==> in_bounds(p@, size@)),
{
    let arr: [HMapDist; 6] = if *center.y() % 2 == 0 {
        neigh_y_even()
    } else {
        neigh_y_odd()
    };
    [
        center.step(arr[0], size),
        center.step(arr[1], size),
        center.step(arr[2], size),
        center.step(arr[3], size),
        center.step(arr[4], size),
        center.step(arr[5], size),
    ]
}

/// Every neighbour that is present lies on the map.
pub proof fn lemma_neighbors_in_bounds(center: (int, int), size: (int, int), i: int)
    requires
        0 <= i < 6,
    ensures
        neighbors(center, size)[i] matches Some(p) ==> in_bounds(p, size),
{
}

} // verus!
