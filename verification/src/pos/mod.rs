//! Map sizes, grid positions and offset vectors, with their arithmetic.
//!
//! Each of the three types is viewed as a pair of mathematical integers,
//! `(x, y)`; the contracts below are stated over those pairs.

use vstd::prelude::*;
use vstd::std_specs::ops::AddSpec;
use vstd::std_specs::ops::SubSpec;

pub mod artable;
pub mod distance;
pub mod neighbor;
pub mod ring;

verus! {

/// Whether the cell `p` lies on a map of extent `size`.
pub open spec fn in_bounds(p: (int, int), size: (int, int)) -> bool {
    0 <= p.0 < size.0 && 0 <= p.1 < size.1
}

/// Component-wise sum of two pairs.
pub open spec fn plus(a: (int, int), b: (int, int)) -> (int, int) {
    (a.0 + b.0, a.1 + b.1)
}

/// Component-wise difference of two pairs.
pub open spec fn minus(a: (int, int), b: (int, int)) -> (int, int) {
    (a.0 - b.0, a.1 - b.1)
}

/// Both components multiplied by `k`.
pub open spec fn scaled(a: (int, int), k: int) -> (int, int) {
    (a.0 * k, a.1 * k)
}

/// Quotient of `a` by `b`, rounded towards zero.
pub open spec fn trunc_div(a: int, b: int) -> int {
    if a >= 0 {
        a / b
    } else {
        -((-a) / b)
    }
}

/// Both components divided by `k`, each quotient rounded towards zero.
pub open spec fn divided(a: (int, int), k: int) -> (int, int) {
    (trunc_div(a.0, k), trunc_div(a.1, k))
}

/// Whether both components fit a position's coordinates.
pub open spec fn fits_pos(p: (int, int)) -> bool {
    0 <= p.0 <= u32::MAX && 0 <= p.1 <= u32::MAX
}

/// Whether both components fit an offset's coordinates.
pub open spec fn fits_dist(d: (int, int)) -> bool {
    i64::MIN <= d.0 <= i64::MAX && i64::MIN <= d.1 <= i64::MAX
}

/// The cell reached from `center` by `offset`, if it lies on the map.
pub open spec fn shifted(center: (int, int), offset: (int, int), size: (int, int)) -> Option<
    (int, int),
> {
    let p = plus(center, offset);
    if in_bounds(p, size) {
        Some(p)
    } else {
        None
    }
}

/// Extent of a map: width and height in cells, both at least one.
#[derive(Debug, Clone, Copy, PartialEq, Eq, Structural)]
pub struct HMapSize {
    x: u32,
    y: u32,
}

impl View for HMapSize {
    type V = (int, int);

    closed spec fn view(&self) -> (int, int) {
        (self.x as int, self.y as int)
    }
}

impl DeepView for HMapSize {
    type V = (int, int);

    open spec fn deep_view(&self) -> (int, int) {
        self@
    }
}

impl HMapSize {
    /// Both dimensions are positive. Every size that executable code holds
    /// satisfies this.
    #[verifier::type_invariant]
    pub open spec fn wf(&self) -> bool {
        self@.0 > 0 && self@.1 > 0
    }

    /// A size of `x` by `y` cells, or nothing when either is zero.
    pub fn new(x: u32, y: u32) -> (r: Option<HMapSize>)
        ensures
            r is Some <==> x > 0 && y > 0,
            r matches Some(s) ==> s@ == (x as int, y as int) && s.wf(),
    {
        if x > 0 && y > 0 {
            Some(HMapSize { x, y })
        } else {
            None
        }
    }

    /// Width in cells.
    pub fn x(&self) -> (r: &u32)
        ensures
            *r == self@.0,
            *r > 0,
    {
        proof {
            use_type_invariant(self);
        }
        &self.x
    }

    /// Height in cells.
    pub fn y(&self) -> (r: &u32)
        ensures
            *r == self@.1,
            *r > 0,
    {
        proof {
            use_type_invariant(self);
        }
        &self.y
    }

    /// Number of cells on the map.
    pub fn serial(&self) -> (r: u64)
        ensures
            r == self@.0 * self@.1,
    {
        let w: u64 = self.x as u64;
        let h: u64 = self.y as u64;
        assert(w * h <= 0xFFFF_FFFF * 0xFFFF_FFFF) by (nonlinear_arith)
            requires
                w <= 0xFFFF_FFFF,
                h <= 0xFFFF_FFFF,
        ;
        w * h
    }
}

impl From<HMapSize> for [u32; 2] {
    /// Width and height, in this order.
    fn from(value: HMapSize) -> (r: [u32; 2])
        ensures
            r@ == seq![value@.0 as u32, value@.1 as u32],
    {
        [value.x, value.y]
    }
}

impl vstd::std_specs::convert::FromSpecImpl<HMapSize> for [u32; 2] {
    open spec fn obeys_from_spec() -> bool {
        true
    }

    closed spec fn from_spec(value: HMapSize) -> [u32; 2] {
        [value.x, value.y]
    }
}

/// A cell of the grid, by column `x` and row `y`.
///
/// A position is not tied to a map: whether it lies on one is asked with
/// [`HMapPos::check`].
#[derive(Debug, Clone, Copy, PartialEq, Eq, Structural)]
pub struct HMapPos {
    x: u32,
    y: u32,
}

impl View for HMapPos {
    type V = (int, int);

    closed spec fn view(&self) -> (int, int) {
        (self.x as int, self.y as int)
    }
}

impl DeepView for HMapPos {
    type V = (int, int);

    open spec fn deep_view(&self) -> (int, int) {
        self@
    }
}

impl HMapPos {
    /// The cell in column `x` of row `y`.
    pub fn new(x: u32, y: u32) -> (r: HMapPos)
        ensures
            r@ == (x as int, y as int),
    {
        HMapPos { x, y }
    }

    /// Column.
    pub fn x(&self) -> (r: &u32)
        ensures
            *r == self@.0,
    {
        &self.x
    }

    /// The column, for writing. The row stays as it is.
    pub fn x_mut(&mut self) -> (r: &mut u32)
        ensures
            *r == old(self)@.0,
            final(self)@ == (*final(r) as int, old(self)@.1),
    {
        &mut self.x
    }

    /// Row.
    pub fn y(&self) -> (r: &u32)
        ensures
            *r == self@.1,
    {
        &self.y
    }

    /// The row, for writing. The column stays as it is.
    pub fn y_mut(&mut self) -> (r: &mut u32)
        ensures
            *r == old(self)@.1,
            final(self)@ == (old(self)@.0, *final(r) as int),
    {
        &mut self.y
    }

    /// Index of the cell when the rows of a map of extent `size` are laid
    /// out one after another.
    pub fn serial(&self, size: &HMapSize) -> (r: u64)
        ensures
            r == self@.0 + self@.1 * size@.0,
    {
        let px: u64 = self.x as u64;
        let py: u64 = self.y as u64;
        let w: u64 = size.x as u64;
        assert(py * w <= 0xFFFF_FFFF * 0xFFFF_FFFF) by (nonlinear_arith)
            requires
                py <= 0xFFFF_FFFF,
                w <= 0xFFFF_FFFF,
        ;
        px + py * w
    }

    /// Whether the cell lies on a map of extent `size`.
    pub fn check(&self, size: &HMapSize) -> (r: bool)
        ensures
            r == in_bounds(self@, size@),
    {
        self.x < size.x && self.y < size.y
    }

    /// The cell itself if it lies on a map of extent `size`, else nothing.
    pub fn filter(self, size: &HMapSize) -> (r: Option<HMapPos>)
        ensures
            r == if in_bounds(self@, size@) {
                Some(self)
            } else {
                None
            },
    {
        if self.check(size) {
            Some(self)
        } else {
            None
        }
    }

    /// The cell reached from this one by `rhs`, or nothing when a
    /// coordinate of it would be negative or too large for a position.
    pub fn checked_add(self, rhs: HMapDist) -> (r: Option<HMapPos>)
        ensures
            r is Some <==> fits_pos(plus(self@, rhs@)),
            r matches Some(p) ==> p@ == plus(self@, rhs@),
    {
        let nx: i128 = self.x as i128 + rhs.x as i128;
        let ny: i128 = self.y as i128 + rhs.y as i128;
        if 0 <= nx && nx <= 0xFFFF_FFFF && 0 <= ny && ny <= 0xFFFF_FFFF {
            Some(HMapPos { x: nx as u32, y: ny as u32 })
        } else {
            None
        }
    }

    /// The cell reached from this one by `rhs`, if it lies on a map of
    /// extent `size`.
    pub(crate) fn step(self, rhs: HMapDist, size: &HMapSize) -> (r: Option<HMapPos>)
        ensures
            r.deep_view() == shifted(self@, rhs@, size@),
    {
        match self.checked_add(rhs) {
            Some(p) => p.filter(size),
            None => None,
        }
    }
}

impl From<[u32; 2]> for HMapPos {
    /// The cell in column `value[0]` of row `value[1]`.
    fn from(value: [u32; 2]) -> (r: HMapPos)
        ensures
            r@ == (value[0] as int, value[1] as int),
    {
        HMapPos { x: value[0], y: value[1] }
    }
}

impl vstd::std_specs::convert::FromSpecImpl<[u32; 2]> for HMapPos {
    open spec fn obeys_from_spec() -> bool {
        true
    }

    closed spec fn from_spec(value: [u32; 2]) -> HMapPos {
        HMapPos { x: value[0], y: value[1] }
    }
}

impl core::ops::Sub for HMapPos {
    type Output = HMapDist;

    /// The offset that leads from `rhs` to this cell.
    fn sub(self, rhs: HMapPos) -> (r: HMapDist)
        ensures
            r@ == minus(self@, rhs@),
    {
        HMapDist { x: self.x as i64 - rhs.x as i64, y: self.y as i64 - rhs.y as i64 }
    }
}

impl vstd::std_specs::ops::SubSpecImpl for HMapPos {
    open spec fn obeys_sub_spec() -> bool {
        true
    }

    open spec fn sub_req(self, rhs: HMapPos) -> bool {
        true
    }

    closed spec fn sub_spec(self, rhs: HMapPos) -> HMapDist {
        HMapDist { x: (self.x - rhs.x) as i64, y: (self.y - rhs.y) as i64 }
    }
}

impl core::ops::Add<HMapDist> for HMapPos {
    type Output = HMapPos;

    /// The cell reached from this one by `rhs`. The caller sees to it that
    /// both coordinates of that cell fit a position.
    fn add(self, rhs: HMapDist) -> (r: HMapPos)
        ensures
            r@ == plus(self@, rhs@),
    {
        HMapPos { x: (self.x as i64 + rhs.x) as u32, y: (self.y as i64 + rhs.y) as u32 }
    }
}

impl vstd::std_specs::ops::AddSpecImpl<HMapDist> for HMapPos {
    open spec fn obeys_add_spec() -> bool {
        true
    }

    open spec fn add_req(self, rhs: HMapDist) -> bool {
        fits_pos(plus(self@, rhs@))
    }

    closed spec fn add_spec(self, rhs: HMapDist) -> HMapPos {
        HMapPos { x: (self.x + rhs.x) as u32, y: (self.y + rhs.y) as u32 }
    }
}

impl core::ops::AddAssign<HMapDist> for HMapPos {
    /// Moves this cell by `rhs`, under the condition of `+`.
    fn add_assign(&mut self, rhs: HMapDist)
        requires
            fits_pos(plus(old(self)@, rhs@)),
        ensures
            final(self)@ == plus(old(self)@, rhs@),
    {
        *self = *self + rhs;
    }
}

/// A step on the grid: a signed number of columns and of rows.
#[derive(Debug, Clone, Copy, PartialEq, Eq, Structural)]
pub struct HMapDist {
    x: i64,
    y: i64,
}

impl View for HMapDist {
    type V = (int, int);

    closed spec fn view(&self) -> (int, int) {
        (self.x as int, self.y as int)
    }
}

impl DeepView for HMapDist {
    type V = (int, int);

    open spec fn deep_view(&self) -> (int, int) {
        self@
    }
}

impl HMapDist {
    /// The step of `x` columns and `y` rows.
    pub fn new(x: i64, y: i64) -> (r: HMapDist)
        ensures
            r@ == (x as int, y as int),
    {
        HMapDist { x, y }
    }

    /// Columns.
    pub fn x(&self) -> (r: &i64)
        ensures
            *r == self@.0,
    {
        &self.x
    }

    /// The columns, for writing. The rows stay as they are.
    pub fn x_mut(&mut self) -> (r: &mut i64)
        ensures
            *r == old(self)@.0,
            final(self)@ == (*final(r) as int, old(self)@.1),
    {
        &mut self.x
    }

    /// Rows.
    pub fn y(&self) -> (r: &i64)
        ensures
            *r == self@.1,
    {
        &self.y
    }

    /// The rows, for writing. The columns stay as they are.
    pub fn y_mut(&mut self) -> (r: &mut i64)
        ensures
            *r == old(self)@.1,
            final(self)@ == (old(self)@.0, *final(r) as int),
    {
        &mut self.y
    }
}

impl From<[i64; 2]> for HMapDist {
    /// The step of `value[0]` columns and `value[1]` rows.
    fn from(value: [i64; 2]) -> (r: HMapDist)
        ensures
            r@ == (value[0] as int, value[1] as int),
    {
        HMapDist { x: value[0], y: value[1] }
    }
}

impl vstd::std_specs::convert::FromSpecImpl<[i64; 2]> for HMapDist {
    open spec fn obeys_from_spec() -> bool {
        true
    }

    closed spec fn from_spec(value: [i64; 2]) -> HMapDist {
        HMapDist { x: value[0], y: value[1] }
    }
}

impl core::ops::Add for HMapDist {
    type Output = HMapDist;

    /// Component-wise sum.
    fn add(self, rhs: HMapDist) -> (r: HMapDist)
        ensures
            r@ == plus(self@, rhs@),
    {
        HMapDist { x: self.x + rhs.x, y: self.y + rhs.y }
    }
}

impl vstd::std_specs::ops::AddSpecImpl for HMapDist {
    open spec fn obeys_add_spec() -> bool {
        true
    }

    open spec fn add_req(self, rhs: HMapDist) -> bool {
        fits_dist(plus(self@, rhs@))
    }

    closed spec fn add_spec(self, rhs: HMapDist) -> HMapDist {
        HMapDist { x: (self.x + rhs.x) as i64, y: (self.y + rhs.y) as i64 }
    }
}

impl core::ops::AddAssign for HMapDist {
    /// Adds `rhs` to this step, under the condition of `+`.
    fn add_assign(&mut self, rhs: HMapDist)
        requires
            fits_dist(plus(old(self)@, rhs@)),
        ensures
            final(self)@ == plus(old(self)@, rhs@),
    {
        *self = *self + rhs;
    }
}

impl core::ops::Sub for HMapDist {
    type Output = HMapDist;

    /// Component-wise difference.
    fn sub(self, rhs: HMapDist) -> (r: HMapDist)
        ensures
            r@ == minus(self@, rhs@),
    {
        HMapDist { x: self.x - rhs.x, y: self.y - rhs.y }
    }
}

impl vstd::std_specs::ops::SubSpecImpl for HMapDist {
    open spec fn obeys_sub_spec() -> bool {
        true
    }

    open spec fn sub_req(self, rhs: HMapDist) -> bool {
        fits_dist(minus(self@, rhs@))
    }

    closed spec fn sub_spec(self, rhs: HMapDist) -> HMapDist {
        HMapDist { x: (self.x - rhs.x) as i64, y: (self.y - rhs.y) as i64 }
    }
}

impl core::ops::SubAssign for HMapDist {
    /// Takes `rhs` from this step, under the condition of `-`.
    fn sub_assign(&mut self, rhs: HMapDist)
        requires
            fits_dist(minus(old(self)@, rhs@)),
        ensures
            final(self)@ == minus(old(self)@, rhs@),
    {
        *self = *self - rhs;
    }
}

impl core::ops::Mul<i64> for HMapDist {
    type Output = HMapDist;

    /// Both components multiplied by `rhs`.
    fn mul(self, rhs: i64) -> (r: HMapDist)
        ensures
            r@ == scaled(self@, rhs as int),
    {
        HMapDist { x: self.x * rhs, y: self.y * rhs }
    }
}

impl vstd::std_specs::ops::MulSpecImpl<i64> for HMapDist {
    open spec fn obeys_mul_spec() -> bool {
        true
    }

    open spec fn mul_req(self, rhs: i64) -> bool {
        fits_dist(scaled(self@, rhs as int))
    }

    closed spec fn mul_spec(self, rhs: i64) -> HMapDist {
        HMapDist { x: (self.x * rhs) as i64, y: (self.y * rhs) as i64 }
    }
}

impl core::ops::MulAssign<i64> for HMapDist {
    /// Multiplies this step by `rhs`, under the condition of `*`.
    fn mul_assign(&mut self, rhs: i64)
        requires
            fits_dist(scaled(old(self)@, rhs as int)),
        ensures
            final(self)@ == scaled(old(self)@, rhs as int),
    {
        *self = *self * rhs;
    }
}

impl core::ops::Div<i64> for HMapDist {
    type Output = HMapDist;

    /// Both components divided by `rhs`, each quotient rounded towards
    /// zero.
    fn div(self, rhs: i64) -> (r: HMapDist)
        ensures
            r@ == divided(self@, rhs as int),
    {
        HMapDist { x: self.x / rhs, y: self.y / rhs }
    }
}

impl vstd::std_specs::ops::DivSpecImpl<i64> for HMapDist {
    open spec fn obeys_div_spec() -> bool {
        true
    }

    open spec fn div_req(self, rhs: i64) -> bool {
        rhs != 0 && fits_dist(divided(self@, rhs as int))
    }

    closed spec fn div_spec(self, rhs: i64) -> HMapDist {
        HMapDist {
            x: trunc_div(self.x as int, rhs as int) as i64,
            y: trunc_div(self.y as int, rhs as int) as i64,
        }
    }
}

impl core::ops::DivAssign<i64> for HMapDist {
    /// Divides this step by `rhs`, under the condition of `/`.
    fn div_assign(&mut self, rhs: i64)
        requires
            rhs != 0,
            fits_dist(divided(old(self)@, rhs as int)),
        ensures
            final(self)@ == divided(old(self)@, rhs as int),
    {
        *self = *self / rhs;
    }
}

/// A size is told by its width and height, and both are numbers that a
/// coordinate can hold.
pub proof fn lemma_size_view(a: HMapSize, b: HMapSize)
    ensures
        fits_pos(a@),
        a@ == b@ ==> a == b,
{
}

/// A position is told by its column and row, and both are numbers that a
/// coordinate can hold.
pub proof fn lemma_pos_view(a: HMapPos, b: HMapPos)
    ensures
        fits_pos(a@),
        a@ == b@ ==> a == b,
{
}

/// An offset is told by its columns and rows, and both are numbers that a
/// component can hold.
pub proof fn lemma_dist_view(a: HMapDist, b: HMapDist)
    ensures
        fits_dist(a@),
        a@ == b@ ==> a == b,
{
}

/// The offset between two cells leads from the second back to the first,
/// and measuring from the second again gives the same offset.
pub proof fn lemma_offset_round_trip(a: HMapPos, b: HMapPos)
    ensures
        a.sub_spec(b)@ == minus(a@, b@),
        b.add_req(a.sub_spec(b)),
        b.add_spec(a.sub_spec(b)) == a,
        b.add_spec(a.sub_spec(b)).sub_spec(b) == a.sub_spec(b),
{
}

} // verus!
