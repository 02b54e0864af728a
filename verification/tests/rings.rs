use hakoniwa_hex::pos::artable::AroundDistTbl;
use hakoniwa_hex::pos::artable::RingBound;
use hakoniwa_hex::pos::neighbor::neigh_hex;
use hakoniwa_hex::pos::HMapPos;
use hakoniwa_hex::pos::HMapSize;
use std::collections::VecDeque;

fn size(x: u32, y: u32) -> HMapSize {
    HMapSize::new(x, y).unwrap()
}

fn query(
    table: &mut AroundDistTbl,
    start: RingBound,
    end: RingBound,
    center: (u32, u32),
    extent: (u32, u32),
) -> (u64, Vec<(u32, (u32, u32))>) {
    let (count, prepared) =
        table.iter(start, end, HMapPos::new(center.0, center.1), size(extent.0, extent.1));
    let cells: Vec<(u32, (u32, u32))> =
        prepared.iter().into_iter().map(|(r, p)| (r, (*p.x(), *p.y()))).collect();
    (count, cells)
}

fn closed(
    table: &mut AroundDistTbl,
    first: u32,
    last: u32,
    center: (u32, u32),
    extent: (u32, u32),
) -> (u64, Vec<(u32, (u32, u32))>) {
    query(table, RingBound::Included(first), RingBound::Included(last), center, extent)
}

#[test]
fn ring_zero_is_the_centre_itself() {
    let mut table: AroundDistTbl = AroundDistTbl::new();
    assert_eq!(closed(&mut table, 0, 0, (2, 2), (5, 5)), (1, vec![(0, (2, 2))]));
    assert_eq!(closed(&mut table, 0, 0, (0, 0), (1, 1)), (1, vec![(0, (0, 0))]));
    assert_eq!(closed(&mut table, 0, 0, (4, 3), (5, 4)), (1, vec![(0, (4, 3))]));
}

#[test]
fn ring_zero_is_the_centre_for_every_cell_of_a_map() {
    let mut table: AroundDistTbl = AroundDistTbl::new();
    for y in 0..4 {
        for x in 0..6 {
            assert_eq!(closed(&mut table, 0, 0, (x, y), (6, 4)), (1, vec![(0, (x, y))]));
        }
    }
}

#[test]
fn ring_zero_around_a_centre_off_the_map_is_empty() {
    let mut table: AroundDistTbl = AroundDistTbl::new();
    assert_eq!(closed(&mut table, 0, 0, (5, 5), (5, 5)), (1, vec![]));
}

#[test]
fn ring_one_around_an_inner_cell_in_an_even_row() {
    let mut table: AroundDistTbl = AroundDistTbl::new();
    let (count, cells) = closed(&mut table, 1, 1, (2, 2), (5, 5));
    assert_eq!(count, 6);
    assert_eq!(
        cells,
        vec![(1, (2, 1)), (1, (3, 1)), (1, (1, 2)), (1, (3, 2)), (1, (2, 3)), (1, (3, 3))]
    );
}

#[test]
fn ring_one_around_an_inner_cell_is_its_six_neighbours() {
    let mut table: AroundDistTbl = AroundDistTbl::new();
    let center: HMapPos = HMapPos::new(2, 2);
    let extent: HMapSize = size(5, 5);
    let neighbours: [Option<HMapPos>; 6] = neigh_hex(&center, &extent);
    let (count, prepared) =
        table.iter(RingBound::Included(1), RingBound::Included(1), center, extent);
    let cells: Vec<(u32, HMapPos)> = prepared.iter();
    assert_eq!(count, 6);
    assert_eq!(cells.len(), 6);
    for i in 0..6 {
        assert_eq!(cells[i].0, 1);
        assert_eq!(Some(cells[i].1), neighbours[i]);
    }
}

#[test]
fn ring_one_around_a_corner_loses_the_cells_off_the_map() {
    let mut table: AroundDistTbl = AroundDistTbl::new();
    let (count, cells) = closed(&mut table, 1, 1, (0, 0), (3, 3));
    assert_eq!(count, 6);
    assert!(cells.len() < 6);
    assert_eq!(cells, vec![(1, (1, 0)), (1, (0, 1)), (1, (1, 1))]);
}

#[test]
fn ring_one_is_the_neighbours_that_exist_for_every_cell() {
    let mut table: AroundDistTbl = AroundDistTbl::new();
    let extent: HMapSize = size(5, 6);
    for y in 0..6 {
        for x in 0..5 {
            let center: HMapPos = HMapPos::new(x, y);
            let expected: Vec<(u32, HMapPos)> =
                neigh_hex(&center, &extent).into_iter().flatten().map(|p| (1, p)).collect();
            let (_, prepared) =
                table.iter(RingBound::Included(1), RingBound::Included(1), center, extent);
            assert_eq!(prepared.iter(), expected);
        }
    }
}

#[test]
fn ring_two_around_an_inner_cell_in_an_even_row() {
    let mut table: AroundDistTbl = AroundDistTbl::new();
    let (count, cells) = closed(&mut table, 2, 2, (2, 2), (5, 5));
    assert_eq!(count, 12);
    assert_eq!(
        cells,
        vec![
            (2, (1, 0)),
            (2, (2, 0)),
            (2, (3, 0)),
            (2, (1, 1)),
            (2, (4, 1)),
            (2, (0, 2)),
            (2, (4, 2)),
            (2, (1, 3)),
            (2, (4, 3)),
            (2, (1, 4)),
            (2, (2, 4)),
            (2, (3, 4)),
        ]
    );
}

#[test]
fn ring_three_around_an_inner_cell_in_an_odd_row() {
    let mut table: AroundDistTbl = AroundDistTbl::new();
    let (count, cells) = closed(&mut table, 3, 3, (3, 3), (7, 7));
    assert_eq!(count, 18);
    assert_eq!(
        cells,
        vec![
            (3, (1, 0)),
            (3, (2, 0)),
            (3, (3, 0)),
            (3, (4, 0)),
            (3, (1, 1)),
            (3, (5, 1)),
            (3, (0, 2)),
            (3, (5, 2)),
            (3, (0, 3)),
            (3, (6, 3)),
            (3, (0, 4)),
            (3, (5, 4)),
            (3, (1, 5)),
            (3, (5, 5)),
            (3, (1, 6)),
            (3, (2, 6)),
            (3, (3, 6)),
            (3, (4, 6)),
        ]
    );
}

#[test]
fn rings_come_one_after_another() {
    let mut table: AroundDistTbl = AroundDistTbl::new();
    let (count, cells) = closed(&mut table, 0, 2, (2, 2), (5, 5));
    assert_eq!(count, 19);
    assert_eq!(
        cells,
        vec![
            (0, (2, 2)),
            (1, (2, 1)),
            (1, (3, 1)),
            (1, (1, 2)),
            (1, (3, 2)),
            (1, (2, 3)),
            (1, (3, 3)),
            (2, (1, 0)),
            (2, (2, 0)),
            (2, (3, 0)),
            (2, (1, 1)),
            (2, (4, 1)),
            (2, (0, 2)),
            (2, (4, 2)),
            (2, (1, 3)),
            (2, (4, 3)),
            (2, (1, 4)),
            (2, (2, 4)),
            (2, (3, 4)),
        ]
    );
}

#[test]
fn rings_near_the_edge_in_an_odd_row() {
    let mut table: AroundDistTbl = AroundDistTbl::new();
    let (count, cells) = closed(&mut table, 1, 2, (1, 1), (4, 3));
    assert_eq!(count, 18);
    assert_eq!(
        cells,
        vec![
            (1, (0, 0)),
            (1, (1, 0)),
            (1, (0, 1)),
            (1, (2, 1)),
            (1, (0, 2)),
            (1, (1, 2)),
            (2, (2, 0)),
            (2, (3, 1)),
            (2, (2, 2)),
        ]
    );
}

#[test]
fn rings_in_the_lower_right_corner() {
    let mut table: AroundDistTbl = AroundDistTbl::new();
    let (count, cells) = closed(&mut table, 0, 2, (9, 9), (10, 10));
    assert_eq!(count, 19);
    assert_eq!(
        cells,
        vec![
            (0, (9, 9)),
            (1, (8, 8)),
            (1, (9, 8)),
            (1, (8, 9)),
            (2, (8, 7)),
            (2, (9, 7)),
            (2, (7, 8)),
            (2, (7, 9)),
        ]
    );
}

#[test]
fn ring_r_holds_six_r_offsets() {
    let mut table: AroundDistTbl = AroundDistTbl::new();
    for r in 1..=12 {
        let (count, cells) = closed(&mut table, r, r, (20, 21), (50, 50));
        assert_eq!(count, 6 * u64::from(r));
        assert_eq!(cells.len(), 6 * usize::try_from(r).unwrap());
        assert!(cells.iter().all(|(radius, _)| *radius == r));
    }
}

#[test]
fn rings_up_to_r_hold_one_plus_three_r_times_r_plus_one_offsets() {
    let mut table: AroundDistTbl = AroundDistTbl::new();
    for r in 0..=12 {
        let (count, _) = closed(&mut table, 0, r, (0, 0), (1, 1));
        assert_eq!(count, 1 + 3 * u64::from(r) * (u64::from(r) + 1));
    }
    let (count, _) = closed(&mut table, 0, 100, (0, 0), (1, 1));
    assert_eq!(count, 30301);
    let (count, _) = closed(&mut table, 40, 100, (0, 0), (1, 1));
    assert_eq!(count, 25620);
}

#[test]
fn new_table_has_nothing_to_extend_to_radius_zero() {
    let mut table: AroundDistTbl = AroundDistTbl::new();
    assert!(!table.extend(0));
}

#[test]
fn extend_says_whether_it_grew() {
    let mut table: AroundDistTbl = AroundDistTbl::new();
    assert!(table.extend(3));
    assert!(!table.extend(3));
    assert!(!table.extend(2));
    assert!(!table.extend(0));
    assert!(table.extend(4));
    assert!(!table.extend(4));
}

#[test]
fn extend_again_leaves_the_rings_as_they_were() {
    let mut table: AroundDistTbl = AroundDistTbl::new();
    assert!(table.extend(3));
    let before = closed(&mut table, 0, 3, (5, 5), (11, 11));
    assert!(!table.extend(3));
    assert!(!table.extend(1));
    let after = closed(&mut table, 0, 3, (5, 5), (11, 11));
    assert_eq!(before, after);
    assert_eq!(before.0, 37);
    assert_eq!(before.1.len(), 37);
}

#[test]
fn extend_further_keeps_the_rings_that_were_there() {
    let mut grown: AroundDistTbl = AroundDistTbl::new();
    assert!(grown.extend(2));
    let early = closed(&mut grown, 0, 2, (7, 6), (15, 15));
    assert!(grown.extend(6));
    let late = closed(&mut grown, 0, 2, (7, 6), (15, 15));
    assert_eq!(early, late);
    let mut at_once: AroundDistTbl = AroundDistTbl::new();
    assert!(at_once.extend(6));
    assert_eq!(
        closed(&mut grown, 0, 6, (7, 6), (15, 15)),
        closed(&mut at_once, 0, 6, (7, 6), (15, 15))
    );
}

#[test]
fn a_query_computes_the_rings_it_needs() {
    let mut table: AroundDistTbl = AroundDistTbl::new();
    let (count, cells) = closed(&mut table, 4, 4, (10, 10), (30, 30));
    assert_eq!(count, 24);
    assert_eq!(cells.len(), 24);
    assert!(!table.extend(4));
    assert!(table.extend(5));
}

#[test]
fn a_range_may_leave_its_end_out() {
    let mut table: AroundDistTbl = AroundDistTbl::new();
    let half_open =
        query(&mut table, RingBound::Included(1), RingBound::Excluded(3), (2, 2), (5, 5));
    let same = closed(&mut table, 1, 2, (2, 2), (5, 5));
    assert_eq!(half_open, same);
    assert_eq!(half_open.0, 18);
    assert!(!table.extend(2));
    assert!(table.extend(3));
}

#[test]
fn a_range_may_leave_its_start_out() {
    let mut table: AroundDistTbl = AroundDistTbl::new();
    let open_start =
        query(&mut table, RingBound::Excluded(0), RingBound::Included(2), (2, 2), (5, 5));
    assert_eq!(open_start, closed(&mut table, 1, 2, (2, 2), (5, 5)));
}

#[test]
fn a_range_without_a_start_begins_at_ring_zero() {
    let mut table: AroundDistTbl = AroundDistTbl::new();
    let from_zero =
        query(&mut table, RingBound::Unbounded, RingBound::Included(2), (2, 2), (5, 5));
    assert_eq!(from_zero, closed(&mut table, 0, 2, (2, 2), (5, 5)));
    assert_eq!(from_zero.0, 19);
}

#[test]
fn a_range_without_an_end_stops_at_the_largest_ring_stored() {
    let mut table: AroundDistTbl = AroundDistTbl::new();
    let fresh = query(&mut table, RingBound::Unbounded, RingBound::Unbounded, (2, 2), (5, 5));
    assert_eq!(fresh, (1, vec![(0, (2, 2))]));
    assert!(table.extend(2));
    let grown = query(&mut table, RingBound::Included(1), RingBound::Unbounded, (2, 2), (5, 5));
    assert_eq!(grown, closed(&mut table, 1, 2, (2, 2), (5, 5)));
    assert!(table.extend(3));
}

#[test]
fn a_range_that_ends_before_radius_zero_holds_ring_zero() {
    let mut table: AroundDistTbl = AroundDistTbl::new();
    let r = query(&mut table, RingBound::Included(0), RingBound::Excluded(0), (2, 2), (5, 5));
    assert_eq!(r, (1, vec![(0, (2, 2))]));
}

#[test]
fn a_range_that_ends_just_before_its_start_is_empty() {
    let mut table: AroundDistTbl = AroundDistTbl::new();
    let r = query(&mut table, RingBound::Included(2), RingBound::Excluded(2), (2, 2), (5, 5));
    assert_eq!(r, (0, vec![]));
    let r = query(&mut table, RingBound::Included(3), RingBound::Included(2), (2, 2), (5, 5));
    assert_eq!(r, (0, vec![]));
}

#[test]
fn a_range_that_ends_well_before_its_start_is_empty() {
    let mut table: AroundDistTbl = AroundDistTbl::new();
    let r = query(&mut table, RingBound::Included(5), RingBound::Included(1), (2, 2), (5, 5));
    assert_eq!(r, (0, vec![]));
    assert!(!table.extend(1));
    assert!(table.extend(2));
}

#[test]
fn a_range_that_starts_after_the_largest_radius_is_empty() {
    let mut table: AroundDistTbl = AroundDistTbl::new();
    let r = query(
        &mut table,
        RingBound::Excluded(u32::MAX),
        RingBound::Included(1),
        (2, 2),
        (5, 5),
    );
    assert_eq!(r, (0, vec![]));
}

#[test]
fn every_cell_of_a_query_lies_on_the_map() {
    let mut table: AroundDistTbl = AroundDistTbl::new();
    let extent: HMapSize = size(4, 5);
    for y in 0..5 {
        for x in 0..4 {
            let (_, prepared) = table.iter(
                RingBound::Included(0),
                RingBound::Included(6),
                HMapPos::new(x, y),
                extent,
            );
            for (radius, p) in prepared.iter() {
                assert!(radius <= 6);
                assert!(p.check(&extent));
            }
        }
    }
}

#[test]
fn a_query_around_a_centre_far_off_the_map_is_empty() {
    let mut table: AroundDistTbl = AroundDistTbl::new();
    let (count, cells) = closed(&mut table, 0, 3, (u32::MAX, u32::MAX), (4, 4));
    assert_eq!(count, 37);
    assert_eq!(cells, vec![]);
}

#[test]
fn a_query_at_the_largest_coordinates_does_not_wrap_around() {
    let mut table: AroundDistTbl = AroundDistTbl::new();
    let m: u32 = u32::MAX - 1;
    let (count, cells) = closed(&mut table, 1, 1, (m, m), (u32::MAX, u32::MAX));
    assert_eq!(count, 6);
    assert_eq!(cells, vec![(1, (m, m - 1)), (1, (m - 1, m))]);
}

#[test]
fn the_count_is_never_below_the_number_of_cells() {
    let mut table: AroundDistTbl = AroundDistTbl::new();
    for y in 0..4 {
        for x in 0..4 {
            for first in 0..4 {
                for last in first..4 {
                    let (count, cells) = closed(&mut table, first, last, (x, y), (4, 4));
                    assert!(u64::try_from(cells.len()).unwrap() <= count);
                }
            }
        }
    }
}

#[test]
fn the_count_is_the_number_of_cells_where_the_map_holds_all_rings() {
    let mut table: AroundDistTbl = AroundDistTbl::new();
    for y in 3..6 {
        for x in 3..6 {
            for first in 0..4 {
                for last in first..4 {
                    let (count, cells) = closed(&mut table, first, last, (x, y), (9, 9));
                    assert_eq!(u64::try_from(cells.len()).unwrap(), count);
                }
            }
        }
    }
}

#[test]
fn the_cells_of_a_ring_are_all_different() {
    let mut table: AroundDistTbl = AroundDistTbl::new();
    let (_, cells) = closed(&mut table, 0, 5, (10, 11), (30, 30));
    assert_eq!(cells.len(), 91);
    for i in 0..cells.len() {
        for j in 0..i {
            assert_ne!(cells[i].1, cells[j].1);
        }
    }
}

#[test]
fn two_queries_on_one_table_do_not_depend_on_each_other() {
    let mut table: AroundDistTbl = AroundDistTbl::new();
    let first = closed(&mut table, 1, 2, (1, 1), (4, 3));
    let other = closed(&mut table, 0, 4, (3, 3), (7, 7));
    let again = closed(&mut table, 1, 2, (1, 1), (4, 3));
    assert_eq!(first, again);
    assert_eq!(other.1.len(), 47);
}

#[test]
fn a_prepared_query_can_be_read_twice() {
    let mut table: AroundDistTbl = AroundDistTbl::new();
    let (_, prepared) = table.iter(
        RingBound::Included(0),
        RingBound::Included(2),
        HMapPos::new(2, 2),
        size(5, 5),
    );
    assert_eq!(prepared.iter(), prepared.iter());
    assert_eq!(prepared.iter().len(), 19);
}

fn steps_from(center: (u32, u32), extent: (u32, u32)) -> Vec<Vec<Option<u32>>> {
    let map: HMapSize = size(extent.0, extent.1);
    let width: usize = usize::try_from(extent.0).unwrap();
    let height: usize = usize::try_from(extent.1).unwrap();
    let mut steps: Vec<Vec<Option<u32>>> = vec![vec![None; width]; height];
    let mut queue: VecDeque<(HMapPos, u32)> = VecDeque::new();
    queue.push_back((HMapPos::new(center.0, center.1), 0));
    while let Some((here, n)) = queue.pop_front() {
        let x: usize = usize::try_from(*here.x()).unwrap();
        let y: usize = usize::try_from(*here.y()).unwrap();
        if steps[y][x].is_none() {
            steps[y][x] = Some(n);
            for next in neigh_hex(&here, &map).into_iter().flatten() {
                queue.push_back((next, n + 1));
            }
        }
    }
    steps
}

#[test]
fn ring_r_is_made_of_the_cells_r_steps_away() {
    let mut table: AroundDistTbl = AroundDistTbl::new();
    for center in [(15, 15), (15, 16), (16, 15), (16, 16)] {
        let steps: Vec<Vec<Option<u32>>> = steps_from(center, (31, 31));
        for r in 0..=9 {
            let mut expected: Vec<(u32, (u32, u32))> = Vec::new();
            for y in 0..31 {
                for x in 0..31 {
                    let col: usize = usize::try_from(x).unwrap();
                    let row: usize = usize::try_from(y).unwrap();
                    if steps[row][col] == Some(r) {
                        expected.push((r, (x, y)));
                    }
                }
            }
            let (_, cells) = closed(&mut table, r, r, center, (31, 31));
            assert_eq!(cells, expected);
        }
    }
}

#[test]
fn rings_near_a_corner_are_the_cells_that_many_steps_away() {
    let mut table: AroundDistTbl = AroundDistTbl::new();
    for center in [(0, 0), (1, 0), (0, 1), (6, 5), (6, 4), (3, 2)] {
        let steps: Vec<Vec<Option<u32>>> = steps_from(center, (7, 6));
        let (_, cells) = closed(&mut table, 0, 12, center, (7, 6));
        assert_eq!(cells.len(), 42);
        for (r, (x, y)) in cells {
            let col: usize = usize::try_from(x).unwrap();
            let row: usize = usize::try_from(y).unwrap();
            assert_eq!(steps[row][col], Some(r));
        }
    }
}
