//! The offsets that lie at a given ring distance from a centre.
//!
//! Ring `r` around a cell is the set of cells exactly `r` steps away from
//! it. Seen from a cell in an odd row, the offsets to those cells are the
//! same on every map and around every such cell: ring 0, then ring 1, and
//! so on, each ring row by row from the top. For a centre in an even row
//! the offsets into odd rows move one column to the right.

use super::distance::hex_distance;
use super::neighbor::neighbors;
use super::plus;
use super::shifted;
use vstd::prelude::*;

verus! {

/// Number of offsets in ring `r`.
pub open spec fn ring_len(r: nat) -> nat {
    if r == 0 {
        1
    } else {
        6 * r
    }
}

/// Number of offsets in the rings before ring `r`, which is where ring `r`
/// starts in the table.
pub open spec fn ring_base(r: nat) -> nat {
    if r == 0 {
        0
    } else {
        (1 + 3 * ((r - 1) * r)) as nat
    }
}

/// The offsets of ring `r` in row `y`, from left to right: the whole edge
/// in the top and the bottom row, the two ends in the rows between.
pub open spec fn ring_row(r: int, y: int) -> Seq<(int, int)> {
    let a = if y < 0 {
        -y
    } else {
        y
    };
    let shift = a / 2;
    if a == r {
        Seq::new((r + 1) as nat, |x: int| (shift + x - r, y))
    } else {
        seq![(shift - r, y), (shift + (2 * r - a) - r, y)]
    }
}

/// The first `n` rows of ring `r`, from row `-r` downwards.
pub open spec fn ring_rows(r: int, n: nat) -> Seq<(int, int)>
    decreases n,
{
    if n == 0 {
        Seq::empty()
    } else {
        ring_rows(r, (n - 1) as nat) + ring_row(r, -r + (n - 1))
    }
}

/// The offsets of ring `r`: its rows from `-r` to `r`.
pub open spec fn ring(r: nat) -> Seq<(int, int)> {
    ring_rows(r as int, 2 * r + 1)
}

/// The rings before ring `n`, one after another.
pub open spec fn rings(n: nat) -> Seq<(int, int)>
    decreases n,
{
    if n == 0 {
        Seq::empty()
    } else {
        rings((n - 1) as nat) + ring((n - 1) as nat)
    }
}

/// The stored offset `o` as it applies around a centre in row `center_y`:
/// in an even row the offsets into odd rows lie one column further right.
pub open spec fn corrected(center_y: int, o: (int, int)) -> (int, int) {
    if center_y % 2 == 0 && o.1 % 2 != 0 {
        (o.0 + 1, o.1)
    } else {
        o
    }
}

/// Whether `o` lies at most `r` columns and `r` rows from the origin, with
/// a column to spare on the right where its row is odd.
pub open spec fn within_reach(o: (int, int), r: int) -> bool {
    &&& -r <= o.0 <= r
    &&& -r <= o.1 <= r
    &&& o.1 % 2 != 0 ==> o.0 < r
}

/// Whether `a` comes before `b` when offsets are read row by row from the
/// top, and from left to right within a row.
pub open spec fn reads_before(a: (int, int), b: (int, int)) -> bool {
    a.1 < b.1 || (a.1 == b.1 && a.0 < b.0)
}

/// Ring 0 is the origin alone.
pub proof fn lemma_ring_zero()
    ensures
        ring(0) == seq![(0int, 0int)],
{
    reveal_with_fuel(ring_rows, 2);
}

/// Length of the first `n` rows of ring `r`.
proof fn lemma_ring_rows_len(r: int, n: nat)
    requires
        1 <= r,
        n <= 2 * r + 1,
    ensures
        ring_rows(r, n).len() == if n == 0 {
            0
        } else if n <= 2 * r {
            r + 1 + 2 * (n - 1)
        } else {
            6 * r
        },
    decreases n,
{
    if n > 0 {
        lemma_ring_rows_len(r, (n - 1) as nat);
    }
}

/// Ring `r` holds one offset for `r == 0` and `6 * r` offsets otherwise.
pub proof fn lemma_ring_len(r: nat)
    ensures
        ring(r).len() == ring_len(r),
{
    if r == 0 {
        reveal_with_fuel(ring_rows, 2);
    } else {
        lemma_ring_rows_len(r as int, 2 * r + 1);
    }
}

/// Each ring starts where the one before it ends.
pub proof fn lemma_ring_base_step(r: nat)
    ensures
        ring_base(r + 1) == ring_base(r) + ring_len(r),
{
    if r > 0 {
        assert(3 * (r * (r + 1)) == 3 * ((r - 1) * r) + 6 * r) by (nonlinear_arith);
    } else {
        assert(3 * (0 * (r + 1)) == 0) by (nonlinear_arith);
    }
}

/// The rings before ring `n` hold `ring_base(n)` offsets.
pub proof fn lemma_rings_len(n: nat)
    ensures
        rings(n).len() == ring_base(n),
    decreases n,
{
    if n > 0 {
        lemma_rings_len((n - 1) as nat);
        lemma_ring_len((n - 1) as nat);
        lemma_ring_base_step((n - 1) as nat);
    }
}

/// Later rings start later.
pub proof fn lemma_ring_base_monotonic(a: nat, b: nat)
    requires
        a <= b,
    ensures
        ring_base(a) <= ring_base(b),
    decreases b,
{
    if a < b {
        lemma_ring_base_monotonic(a, (b - 1) as nat);
        lemma_ring_base_step((b - 1) as nat);
    }
}

/// Rings that are computed later stand behind those that were there: the
/// rings before ring `n` are the start of the rings before a later ring
/// `m`.
pub proof fn lemma_rings_prefix(n: nat, m: nat)
    requires
        n <= m,
    ensures
        rings(n).len() <= rings(m).len(),
        rings(m).subrange(0, rings(n).len() as int) == rings(n),
    decreases m,
{
    if n < m {
        lemma_rings_prefix(n, (m - 1) as nat);
    }
}

/// Ring `r` stands in the table from index `ring_base(r)` on.
pub proof fn lemma_rings_index(n: nat, r: nat, k: int)
    requires
        r < n,
        0 <= k < ring_len(r),
    ensures
        ring_base(r) + k < rings(n).len(),
        rings(n)[ring_base(r) + k] == ring(r)[k],
    decreases n,
{
    lemma_rings_len((n - 1) as nat);
    lemma_ring_len(r);
    if r < n - 1 {
        lemma_rings_index((n - 1) as nat, r, k);
    }
}

/// No offset in the first `n` rows of ring `r` reaches further than `r`,
/// and none lies below those rows.
proof fn lemma_ring_rows_reach(r: int, n: nat, k: int)
    requires
        0 <= r,
        n <= 2 * r + 1,
        0 <= k < ring_rows(r, n).len(),
    ensures
        within_reach(ring_rows(r, n)[k], r),
        ring_rows(r, n)[k].1 < -r + n,
    decreases n,
{
    let before = ring_rows(r, (n - 1) as nat);
    if k < before.len() {
        lemma_ring_rows_reach(r, (n - 1) as nat, k);
    }
}

/// No offset of ring `r` reaches further than `r` columns or rows.
pub proof fn lemma_ring_reach(r: nat, k: int)
    requires
        0 <= k < ring_len(r),
    ensures
        within_reach(ring(r)[k], r as int),
{
    lemma_ring_len(r);
    lemma_ring_rows_reach(r as int, 2 * r + 1, k);
}

/// The first `n` rows of ring `r` stand row by row, each from left to
/// right.
proof fn lemma_ring_rows_order(r: int, n: nat, i: int, j: int)
    requires
        0 <= r,
        n <= 2 * r + 1,
        0 <= i < j < ring_rows(r, n).len(),
    ensures
        reads_before(ring_rows(r, n)[i], ring_rows(r, n)[j]),
    decreases n,
{
    let before = ring_rows(r, (n - 1) as nat);
    if j < before.len() {
        lemma_ring_rows_order(r, (n - 1) as nat, i, j);
    } else if i < before.len() {
        lemma_ring_rows_reach(r, (n - 1) as nat, i);
    }
}

/// The offsets of a ring stand row by row from the top, each row from left
/// to right; so no offset stands in a ring twice.
pub proof fn lemma_ring_order(r: nat, i: int, j: int)
    requires
        0 <= i < j < ring_len(r),
    ensures
        reads_before(ring(r)[i], ring(r)[j]),
        ring(r)[i] != ring(r)[j],
{
    lemma_ring_len(r);
    lemma_ring_rows_order(r as int, 2 * r + 1, i, j);
}

/// Ring 1 around a cell is made of its six neighbours, in the order in
/// which the neighbour lookup gives them.
pub proof fn lemma_ring_one_is_neighbors(center: (int, int), size: (int, int))
    ensures
        ring(1).len() == 6,
        forall|i: int|
            0 <= i < 6 ==> shifted(center, corrected(center.1, #[trigger] ring(1)[i]), size)
                == neighbors(center, size)[i],
{
    reveal_with_fuel(ring_rows, 4);
}

/// Every offset in the first `n` rows of ring `r` leads to a cell `r`
/// steps away.
proof fn lemma_ring_rows_distance(r: int, n: nat, k: int, center: (int, int))
    requires
        0 <= r,
        n <= 2 * r + 1,
        0 <= k < ring_rows(r, n).len(),
    ensures
        hex_distance(center, plus(center, corrected(center.1, ring_rows(r, n)[k]))) == r,
    decreases n,
{
    let before = ring_rows(r, (n - 1) as nat);
    if k < before.len() {
        lemma_ring_rows_distance(r, (n - 1) as nat, k, center);
    }
}

/// Every offset of ring `r` leads from the centre to a cell exactly `r`
/// steps away.
pub proof fn lemma_ring_is_distance(r: nat, k: int, center: (int, int))
    requires
        0 <= k < ring_len(r),
    ensures
        hex_distance(center, plus(center, corrected(center.1, ring(r)[k]))) == r,
{
    lemma_ring_len(r);
    lemma_ring_rows_distance(r as int, 2 * r + 1, k, center);
}

/// Where offset `j` of row `y` stands among the first `n` rows of ring
/// `r`.
proof fn lemma_ring_rows_hold_row(r: int, n: nat, y: int, j: int) -> (k: int)
    requires
        0 <= r,
        n <= 2 * r + 1,
        -r <= y < -r + n,
        0 <= j < ring_row(r, y).len(),
    ensures
        0 <= k < ring_rows(r, n).len(),
        ring_rows(r, n)[k] == ring_row(r, y)[j],
    decreases n,
{
    let before = ring_rows(r, (n - 1) as nat);
    if y == -r + (n - 1) {
        before.len() + j
    } else {
        lemma_ring_rows_hold_row(r, (n - 1) as nat, y, j)
    }
}

/// Every cell exactly `r` steps away from the centre is reached by an
/// offset of ring `r`; the result is where that offset stands in the ring.
pub proof fn lemma_distance_is_ring(r: nat, center: (int, int), p: (int, int)) -> (k: int)
    requires
        hex_distance(center, p) == r,
    ensures
        0 <= k < ring_len(r),
        plus(center, corrected(center.1, ring(r)[k])) == p,
{
    lemma_ring_len(r);
    let y = p.1 - center.1;
    let x = if center.1 % 2 == 0 && y % 2 != 0 {
        p.0 - center.0 - 1
    } else {
        p.0 - center.0
    };
    let a = if y < 0 {
        -y
    } else {
        y
    };
    let j = if a == r {
        x - a / 2 + r
    } else if x == a / 2 - r {
        0
    } else {
        1
    };
    let k = lemma_ring_rows_hold_row(r as int, 2 * r + 1, y, j);
    assert(ring_row(r as int, y)[j] == (x, y));
    k
}

} // verus!
