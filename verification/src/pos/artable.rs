//! A table of ring offsets that grows on demand, and queries on it.
//!
//! The offsets of a ring do not depend on the map or on the centre, so
//! they are computed once and kept. A query names a range of radii, a
//! centre and the extent of a map; it gives the cells of those rings that
//! lie on the map.

use super::distance::hex_distance;
use super::in_bounds;
use super::ring::corrected;
use super::ring::lemma_distance_is_ring;
use super::ring::lemma_ring_base_monotonic;
use super::ring::lemma_ring_base_step;
use super::ring::lemma_ring_is_distance;
use super::ring::lemma_ring_len;
use super::ring::lemma_ring_order;
use super::ring::lemma_ring_reach;
use super::ring::lemma_ring_zero;
use super::ring::lemma_rings_index;
use super::ring::lemma_rings_len;
use super::ring::lemma_rings_prefix;
use super::ring::ring;
use super::ring::ring_base;
use super::ring::ring_len;
use super::ring::ring_row;
use super::ring::ring_rows;
use super::ring::rings;
use super::shifted;
use super::HMapDist;
use super::HMapPos;
use super::HMapSize;
use vstd::prelude::*;

verus! {

/// One end of a range of radii.
#[derive(Debug, Clone, Copy, PartialEq, Eq, Structural)]
pub enum RingBound {
    /// The range reaches to this radius, and holds it.
    Included(u32),
    /// The range reaches to this radius, and does not hold it.
    Excluded(u32),
    /// The range has no end on this side.
    Unbounded,
}

/// The smallest radius of a range that starts at `start`.
pub open spec fn first_ring(start: RingBound) -> nat {
    match start {
        RingBound::Included(s) => s as nat,
        RingBound::Excluded(s) => (s + 1) as nat,
        RingBound::Unbounded => 0,
    }
}

/// The largest radius of a range that ends at `end`, for a table that
/// stores the rings up to `max_radius`: a range without an end stops at
/// the largest ring stored, and one that ends before radius 0 is taken to
/// end at it.
pub open spec fn last_ring(end: RingBound, max_radius: nat) -> nat {
    match end {
        RingBound::Included(e) => e as nat,
        RingBound::Excluded(e) => if e == 0 {
            0
        } else {
            (e - 1) as nat
        },
        RingBound::Unbounded => max_radius,
    }
}

/// The largest radius stored once a table that stored the rings up to
/// `max_radius` has been extended to `target`.
pub open spec fn extended_to(max_radius: nat, target: nat) -> nat {
    if target > max_radius {
        target
    } else {
        max_radius
    }
}

/// Number of offsets in the rings from `first` up to, not including, `end`.
pub open spec fn offset_count(first: nat, end: nat) -> nat {
    if first <= end {
        (ring_base(end) - ring_base(first)) as nat
    } else {
        0
    }
}

/// What the stored offset `o` of ring `radius` gives around `center` on a
/// map of extent `size`: the radius and the cell, if the cell lies on the
/// map.
pub open spec fn ring_hit(radius: u32, center: (int, int), size: (int, int), o: (int, int))
    -> Option<(u32, (int, int))> {
    match shifted(center, corrected(center.1, o), size) {
        Some(p) => Some((radius, p)),
        None => None,
    }
}

/// [`ring_hit`] as a function of the stored offset alone.
pub open spec fn hit_fn(radius: u32, center: (int, int), size: (int, int)) -> spec_fn(
    (int, int),
) -> Option<(u32, (int, int))> {
    |o: (int, int)| ring_hit(radius, center, size, o)
}

/// The cells of ring `radius` around `center` that lie on a map of extent
/// `size`, in the order of the stored offsets, each with the radius.
pub open spec fn ring_hits(radius: nat, center: (int, int), size: (int, int)) -> Seq<
    (u32, (int, int)),
> {
    ring(radius).filter_map(hit_fn(radius as u32, center, size))
}

/// The cells of the rings from `first` up to, not including, `end` around
/// `center` that lie on a map of extent `size`, ring after ring.
pub open spec fn hits(first: nat, end: nat, center: (int, int), size: (int, int)) -> Seq<
    (u32, (int, int)),
>
    decreases end,
{
    if end <= first {
        Seq::empty()
    } else {
        hits(first, (end - 1) as nat, center, size) + ring_hits((end - 1) as nat, center, size)
    }
}

/// Whether every cell within `reach` columns and rows of `center` lies on
/// a map of extent `size`.
pub open spec fn covers(center: (int, int), size: (int, int), reach: int) -> bool {
    &&& 0 <= center.0 - reach
    &&& center.0 + reach < size.0
    &&& 0 <= center.1 - reach
    &&& center.1 + reach < size.1
}

/// The table of ring offsets: the rings from 0 up to a largest radius, each
/// computed once and never changed afterwards.
pub struct AroundDistTbl {
    table: Vec<HMapDist>,
    center_dist: u32,
}

impl View for AroundDistTbl {
    type V = Seq<(int, int)>;

    /// The stored offsets, in the order in which they were computed.
    closed spec fn view(&self) -> Seq<(int, int)> {
        self.table.deep_view()
    }
}

impl AroundDistTbl {
    /// The largest radius whose ring is stored.
    pub closed spec fn max_radius(&self) -> nat {
        self.center_dist as nat
    }

    /// The table holds the rings from 0 up to its largest radius, and
    /// nothing else. Every table that executable code holds satisfies
    /// this.
    #[verifier::type_invariant]
    pub open spec fn wf(&self) -> bool {
        self@ == rings(self.max_radius() + 1)
    }

    /// A table that holds ring 0 alone.
    pub fn new() -> (r: AroundDistTbl)
        ensures
            r.wf(),
            r.max_radius() == 0,
            r@ == seq![(0int, 0int)],
    {
        let mut table: Vec<HMapDist> = Vec::new();
        table.push(HMapDist::new(0, 0));
        proof {
            reveal_with_fuel(rings, 2);
            reveal_with_fuel(ring_rows, 2);
            assert(table.deep_view() =~= seq![(0int, 0int)]);
            assert(rings(1) =~= seq![(0int, 0int)]);
        }
        AroundDistTbl { table, center_dist: 0 }
    }

    /// Computes the rings up to radius `center_dist` that are not stored
    /// yet, and says whether there were any.
    pub fn extend(&mut self, center_dist: u32) -> (grew: bool)
        ensures
            final(self).wf(),
            grew == (center_dist > old(self).max_radius()),
            final(self).max_radius() == extended_to(old(self).max_radius(), center_dist as nat),
            !grew ==> final(self)@ == old(self)@,
            old(self)@.len() <= final(self)@.len(),
            final(self)@.subrange(0, old(self)@.len() as int) == old(self)@,
    {
        proof {
            use_type_invariant(&*self);
        }
        if center_dist <= self.center_dist {
            return false;
        }
        // The rings are appended to a table of this function's own, so that
        // `self` holds a complete table at every moment.
        let mut held: AroundDistTbl = AroundDistTbl::new();
        core::mem::swap(self, &mut held);
        let mut table: Vec<HMapDist> = held.table;
        let target: i64 = center_dist as i64;
        let mut r: i64 = held.center_dist as i64 + 1;
        while r <= target
            invariant
                1 <= r <= target + 1,
                target == center_dist,
                table.deep_view() == rings(r as nat),
            decreases target + 1 - r,
        {
            let mut y: i64 = -r;
            while y <= r
                invariant
                    1 <= r <= target <= u32::MAX,
                    -r <= y <= r + 1,
                    table.deep_view() == rings(r as nat) + ring_rows(r as int, (y + r) as nat),
                decreases r + 1 - y,
            {
                let ghost done = rings(r as nat) + ring_rows(r as int, (y + r) as nat);
                let ghost row = ring_row(r as int, y as int);
                let a: i64 = if y < 0 {
                    -y
                } else {
                    y
                };
                let shift: i64 = a / 2;
                if a == r {
                    let mut x: i64 = 0;
                    while x <= r
                        invariant
                            1 <= r <= u32::MAX,
                            0 <= x <= r + 1,
                            0 <= shift <= r,
                            -r <= y <= r,
                            row.len() == r + 1,
                            forall|i: int|
                                0 <= i <= r ==> #[trigger] row[i] == (shift + i - r, y as int),
                            table.deep_view() == done + row.take(x as int),
                        decreases r + 1 - x,
                    {
                        let ghost seen = table.deep_view();
                        table.push(HMapDist::new(shift + x - r, y));
                        assert(table.deep_view() =~= seen.push(row[x as int]));
                        x = x + 1;
                    }
                } else {
                    let space: i64 = r * 2 - a;
                    table.push(HMapDist::new(shift - r, y));
                    table.push(HMapDist::new(shift + space - r, y));
                }
                assert(done + row =~= rings(r as nat) + ring_rows(r as int, (y + 1 + r) as nat));
                y = y + 1;
            }
            r = r + 1;
        }
        proof {
            lemma_rings_prefix(old(self).max_radius() + 1, (center_dist + 1) as nat);
        }
        *self = AroundDistTbl { table, center_dist };
        true
    }

    /// Prepares a query for the rings from `start` to `end` around
    /// `center` on a map of extent `size`.
    ///
    /// Rings that the range asks for and that are not stored yet are
    /// computed first. The number returned is the number of offsets that
    /// those rings hold: the query gives at most that many cells, and fewer
    /// where some of them lie off the map.
    pub fn iter<'a>(
        &'a mut self,
        start: RingBound,
        end: RingBound,
        center: HMapPos,
        size: HMapSize,
    ) -> (r: (u64, ADTWrap<'a>))
        ensures
            final(self).wf(),
            final(self).max_radius() == extended_to(
                old(self).max_radius(),
                last_ring(end, old(self).max_radius()),
            ),
            old(self)@.len() <= final(self)@.len(),
            final(self)@.subrange(0, old(self)@.len() as int) == old(self)@,
            r.0 == offset_count(first_ring(start), last_ring(end, old(self).max_radius()) + 1),
            r.1.first() == first_ring(start),
            r.1.end() == last_ring(end, old(self).max_radius()) + 1,
            r.1.center() == center,
            r.1.size() == size,
    {
        proof {
            use_type_invariant(&*self);
        }
        let first: u64 = match start {
            RingBound::Included(s) => s as u64,
            RingBound::Excluded(s) => s as u64 + 1,
            RingBound::Unbounded => 0,
        };
        let last: u32 = match end {
            RingBound::Included(e) => e,
            RingBound::Excluded(e) => if e == 0 {
                0
            } else {
                e - 1
            },
            RingBound::Unbounded => self.center_dist,
        };
        if self.center_dist < last {
            self.extend(last);
        }
        let stop: u64 = last as u64 + 1;
        proof {
            assert(self.table@.len() == self.table.len());
            lemma_rings_len(stop as nat);
            lemma_rings_prefix(stop as nat, self.max_radius() + 1);
            if first <= stop {
                lemma_ring_base_monotonic(first as nat, stop as nat);
            }
        }
        let count: u64 = if first <= stop {
            (ring_base_exec(stop) - ring_base_exec(first)) as u64
        } else {
            0
        };
        let adt: &[HMapDist] = self.table.as_slice();
        (count, ADTWrap { adt, first, stop, center, size })
    }
}

/// Start of ring `r` in the table.
fn ring_base_exec(r: u64) -> (b: u128)
    requires
        r <= 0x1_0000_0000,
    ensures
        b == ring_base(r as nat),
{
    if r == 0 {
        0
    } else {
        let p: u128 = r as u128 - 1;
        let q: u128 = r as u128;
        assert(p * q <= 0x1_0000_0000 * 0x1_0000_0000) by (nonlinear_arith)
            requires
                p <= 0x1_0000_0000,
                q <= 0x1_0000_0000,
        ;
        1 + 3 * (p * q)
    }
}

/// A query that has been prepared: the rings asked for, the centre and the
/// extent of the map, together with the stored offsets they refer to.
pub struct ADTWrap<'a> {
    adt: &'a [HMapDist],
    first: u64,
    stop: u64,
    center: HMapPos,
    size: HMapSize,
}

impl<'a> ADTWrap<'a> {
    /// The offsets at hand are the rings that the query asks for.
    #[verifier::type_invariant]
    closed spec fn holds_rings(&self) -> bool {
        &&& self.stop <= 0x1_0000_0000
        &&& self.first < self.stop ==> ring_base(self.stop as nat) <= self.adt@.len()
        &&& self.first < self.stop ==> forall|i: int|
            0 <= i < ring_base(self.stop as nat) ==> (#[trigger] self.adt@[i])@ == rings(
                self.stop as nat,
            )[i]
    }

    /// The smallest radius asked for.
    pub closed spec fn first(&self) -> nat {
        self.first as nat
    }

    /// The radius after the largest one asked for.
    pub closed spec fn end(&self) -> nat {
        self.stop as nat
    }

    /// The centre of the rings.
    pub closed spec fn center(&self) -> HMapPos {
        self.center
    }

    /// The extent of the map.
    pub closed spec fn size(&self) -> HMapSize {
        self.size
    }

    /// The cells of the rings asked for that lie on the map, each with the
    /// radius of its ring: ring after ring, and within a ring in the order
    /// of the stored offsets.
    pub fn iter(&self) -> (out: Vec<(u32, HMapPos)>)
        ensures
            out.deep_view() == hits(self.first(), self.end(), self.center()@, self.size()@),
            out.len() <= offset_count(self.first(), self.end()),
            self.first() >= self.end() || covers(self.center()@, self.size()@, self.end() - 1)
                ==> out.len() == offset_count(self.first(), self.end()),
            forall|i: int|
                0 <= i < out.len() ==> in_bounds((#[trigger] out[i]).1@, self.size()@)
                    && self.first() <= out[i].0 < self.end() && out[i].0 == hex_distance(
                    self.center()@,
                    out[i].1@,
                ),
    {
        proof {
            use_type_invariant(self);
        }
        let mut out: Vec<(u32, HMapPos)> = Vec::new();
        let ghost c = self.center@;
        let ghost sz = self.size@;
        if self.first < self.stop {
            let even_row: bool = *self.center.y() % 2 == 0;
            proof {
                assert(self.adt@.len() == self.adt.len());
                lemma_ring_base_monotonic(self.first as nat, self.stop as nat);
                lemma_rings_len(self.stop as nat);
            }
            let mut r: u64 = self.first;
            let mut base: usize = ring_base_exec(r) as usize;
            while r < self.stop
                invariant
                    self.first <= r <= self.stop <= 0x1_0000_0000,
                    base == ring_base(r as nat),
                    ring_base(self.stop as nat) == rings(self.stop as nat).len(),
                    ring_base(self.stop as nat) <= self.adt@.len() <= usize::MAX,
                    forall|i: int|
                        0 <= i < ring_base(self.stop as nat) ==> (#[trigger] self.adt@[i])@
                            == rings(self.stop as nat)[i],
                    c == self.center@,
                    sz == self.size@,
                    even_row == (c.1 % 2 == 0),
                    out.deep_view() == hits(self.first as nat, r as nat, c, sz),
                decreases self.stop - r,
            {
                let ghost f = hit_fn(r as u32, c, sz);
                let ghost before = out.deep_view();
                proof {
                    lemma_ring_base_step(r as nat);
                    lemma_ring_base_monotonic((r + 1) as nat, self.stop as nat);
                    lemma_ring_len(r as nat);
                }
                let n: usize = if r == 0 {
                    1
                } else {
                    (6 * r) as usize
                };
                let mut k: usize = 0;
                while k < n
                    invariant
                        r < self.stop <= 0x1_0000_0000,
                        k <= n,
                        n == ring_len(r as nat),
                        n == ring(r as nat).len(),
                        base == ring_base(r as nat),
                        ring_base(self.stop as nat) == rings(self.stop as nat).len(),
                        base + n <= ring_base(self.stop as nat) <= self.adt@.len() <= usize::MAX,
                        forall|i: int|
                            0 <= i < ring_base(self.stop as nat) ==> (#[trigger] self.adt@[i])@
                                == rings(self.stop as nat)[i],
                        c == self.center@,
                        sz == self.size@,
                        even_row == (c.1 % 2 == 0),
                        f == hit_fn(r as u32, c, sz),
                        out.deep_view() == before + ring(r as nat).take(k as int).filter_map(f),
                    decreases n - k,
                {
                    let d: HMapDist = self.adt[base + k];
                    proof {
                        lemma_rings_index(self.stop as nat, r as nat, k as int);
                        lemma_ring_reach(r as nat, k as int);
                        ring(r as nat).lemma_filter_map_take_succ(f, k as int);
                    }
                    let dx: i64 = *d.x();
                    let dy: i64 = *d.y();
                    let moved: HMapDist = if even_row && dy % 2 != 0 {
                        HMapDist::new(dx + 1, dy)
                    } else {
                        d
                    };
                    let ghost seen = out.deep_view();
                    if let Some(p) = self.center.step(moved, &self.size) {
                        out.push((r as u32, p));
                        assert(out.deep_view() =~= seen.push((r as u32, p@)));
                    }
                    k = k + 1;
                }
                assert(ring(r as nat).take(n as int) =~= ring(r as nat));
                base = base + n;
                r = r + 1;
            }
        }
        proof {
            lemma_hits_len(self.first(), self.end(), c, sz);
            assert forall|i: int| 0 <= i < out.len() implies in_bounds(
                (#[trigger] out[i]).1@,
                self.size()@,
            ) && self.first() <= out[i].0 < self.end() && out[i].0 == hex_distance(
                self.center()@,
                out[i].1@,
            ) by {
                lemma_hits_in_bounds(self.first(), self.end(), c, sz, i);
                lemma_hits_carry_distance(self.first(), self.end(), c, sz, i);
            }
        }
        out
    }
}

/// Filtering drops elements and adds none; where it drops none, the length
/// stays.
proof fn lemma_filter_map_len<A, B>(s: Seq<A>, f: spec_fn(A) -> Option<B>)
    ensures
        s.filter_map(f).len() <= s.len(),
        (forall|i: int| 0 <= i < s.len() ==> f(#[trigger] s[i]) is Some) ==> s.filter_map(f).len()
            == s.len(),
    decreases s.len(),
{
    if s.len() > 0 {
        let rest = s.drop_last();
        lemma_filter_map_len(rest, f);
    }
}

/// Where an element that passed the filter stood before it.
proof fn lemma_filter_map_source<A, B>(s: Seq<A>, f: spec_fn(A) -> Option<B>, i: int) -> (k: int)
    requires
        0 <= i < s.filter_map(f).len(),
    ensures
        0 <= k < s.len(),
        f(s[k]) == Some(s.filter_map(f)[i]),
    decreases s.len(),
{
    let rest = s.drop_last();
    if i < rest.filter_map(f).len() {
        lemma_filter_map_source(rest, f, i)
    } else {
        s.len() - 1
    }
}

/// Elements that passed the filter stand in the order in which they stood
/// before it.
proof fn lemma_filter_map_sources<A, B>(s: Seq<A>, f: spec_fn(A) -> Option<B>, i: int, j: int)
    -> (k: (int, int))
    requires
        0 <= i < j < s.filter_map(f).len(),
    ensures
        0 <= k.0 < k.1 < s.len(),
        f(s[k.0]) == Some(s.filter_map(f)[i]),
        f(s[k.1]) == Some(s.filter_map(f)[j]),
    decreases s.len(),
{
    let rest = s.drop_last();
    if j < rest.filter_map(f).len() {
        lemma_filter_map_sources(rest, f, i, j)
    } else {
        (lemma_filter_map_source(rest, f, i), s.len() - 1)
    }
}

/// Where an element that passes the filter stands after it.
proof fn lemma_filter_map_target<A, B>(s: Seq<A>, f: spec_fn(A) -> Option<B>, k: int) -> (i: int)
    requires
        0 <= k < s.len(),
        f(s[k]) is Some,
    ensures
        0 <= i < s.filter_map(f).len(),
        f(s[k]) == Some(s.filter_map(f)[i]),
    decreases s.len(),
{
    let rest = s.drop_last();
    if k < rest.len() {
        lemma_filter_map_target(rest, f, k)
    } else {
        rest.filter_map(f).len() as int
    }
}

/// Extending a table again, to the same or a smaller radius, finds
/// nothing to do and leaves the same rings stored.
pub proof fn lemma_extend_again(max_radius: nat, target: nat, again: nat)
    requires
        again <= target,
    ensures
        !(again > extended_to(max_radius, target)),
        extended_to(extended_to(max_radius, target), again) == extended_to(max_radius, target),
{
}

/// A query for ring 0 alone around a cell on the map gives that cell, and
/// nothing else.
pub proof fn lemma_hits_center(center: (int, int), size: (int, int))
    requires
        in_bounds(center, size),
    ensures
        hits(0, 1, center, size) == seq![(0u32, center)],
{
    reveal_with_fuel(hits, 2);
    lemma_ring_zero();
    let f = hit_fn(0u32, center, size);
    assert(ring(0) =~= seq![(0int, 0int)]);
    Seq::lemma_filter_map_singleton((0int, 0int), f);
}

/// Every cell that a query gives lies on the map, and carries the radius
/// of a ring that was asked for.
pub proof fn lemma_hits_in_bounds(
    first: nat,
    end: nat,
    center: (int, int),
    size: (int, int),
    i: int,
)
    requires
        0 <= i < hits(first, end, center, size).len(),
    ensures
        in_bounds(hits(first, end, center, size)[i].1, size),
        end <= 0x1_0000_0000 ==> first <= hits(first, end, center, size)[i].0 < end,
    decreases end,
{
    if first < end {
        let before = hits(first, (end - 1) as nat, center, size);
        if i < before.len() {
            lemma_hits_in_bounds(first, (end - 1) as nat, center, size, i);
        } else {
            lemma_filter_map_source(
                ring((end - 1) as nat),
                hit_fn((end - 1) as nat as u32, center, size),
                i - before.len(),
            );
        }
    }
}

/// A query gives at most as many cells as the rings it asks for hold
/// offsets, and exactly as many where all cells within reach of the
/// largest ring lie on the map.
pub proof fn lemma_hits_len(first: nat, end: nat, center: (int, int), size: (int, int))
    ensures
        hits(first, end, center, size).len() <= offset_count(first, end),
        first >= end || covers(center, size, end - 1) ==> hits(first, end, center, size).len()
            == offset_count(first, end),
    decreases end,
{
    if first < end {
        let r = (end - 1) as nat;
        let f = hit_fn(r as u32, center, size);
        lemma_hits_len(first, r, center, size);
        lemma_filter_map_len(ring(r), f);
        lemma_ring_len(r);
        lemma_ring_base_step(r);
        lemma_ring_base_monotonic(first, r);
        if covers(center, size, end - 1) {
            assert forall|k: int| 0 <= k < ring(r).len() implies f(
                #[trigger] ring(r)[k],
            ) is Some by {
                lemma_ring_reach(r, k);
            }
        }
    }
}

/// Every cell that a query gives carries its distance from the centre.
pub proof fn lemma_hits_carry_distance(
    first: nat,
    end: nat,
    center: (int, int),
    size: (int, int),
    i: int,
)
    requires
        end <= 0x1_0000_0000,
        0 <= i < hits(first, end, center, size).len(),
    ensures
        hits(first, end, center, size)[i].0 == hex_distance(
            center,
            hits(first, end, center, size)[i].1,
        ),
    decreases end,
{
    if first < end {
        let r = (end - 1) as nat;
        let before = hits(first, r, center, size);
        if i < before.len() {
            lemma_hits_carry_distance(first, r, center, size, i);
        } else {
            let k = lemma_filter_map_source(ring(r), hit_fn(r as u32, center, size), i - before.len());
            lemma_ring_len(r);
            lemma_ring_is_distance(r, k, center);
        }
    }
}

/// A query gives every cell on the map whose distance from the centre is
/// one of the radii asked for; the result is where the cell stands in what
/// the query gives.
pub proof fn lemma_hits_hold_cell(
    first: nat,
    end: nat,
    center: (int, int),
    size: (int, int),
    p: (int, int),
) -> (i: int)
    requires
        end <= 0x1_0000_0000,
        in_bounds(p, size),
        first <= hex_distance(center, p) < end,
    ensures
        0 <= i < hits(first, end, center, size).len(),
        hits(first, end, center, size)[i] == (hex_distance(center, p) as u32, p),
    decreases end,
{
    let r = (end - 1) as nat;
    let before = hits(first, r, center, size);
    if hex_distance(center, p) < r {
        lemma_hits_hold_cell(first, r, center, size, p)
    } else {
        let k = lemma_distance_is_ring(r, center, p);
        lemma_ring_len(r);
        before.len() + lemma_filter_map_target(ring(r), hit_fn(r as u32, center, size), k)
    }
}

/// A query gives no cell twice.
pub proof fn lemma_hits_differ(
    first: nat,
    end: nat,
    center: (int, int),
    size: (int, int),
    i: int,
    j: int,
)
    requires
        end <= 0x1_0000_0000,
        0 <= i < j < hits(first, end, center, size).len(),
    ensures
        hits(first, end, center, size)[i].1 != hits(first, end, center, size)[j].1,
    decreases end,
{
    if first < end {
        let r = (end - 1) as nat;
        let f = hit_fn(r as u32, center, size);
        let before = hits(first, r, center, size);
        if j < before.len() {
            lemma_hits_differ(first, r, center, size, i, j);
        } else if i < before.len() {
            lemma_hits_in_bounds(first, r, center, size, i);
            lemma_hits_carry_distance(first, r, center, size, i);
            lemma_hits_carry_distance(first, end, center, size, j);
            lemma_filter_map_source(ring(r), f, j - before.len());
        } else {
            let k = lemma_filter_map_sources(ring(r), f, i - before.len(), j - before.len());
            lemma_ring_len(r);
            lemma_ring_order(r, k.0, k.1);
        }
    }
}

} // verus!
