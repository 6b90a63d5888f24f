//! Fixed-point coordinates and axis-aligned rectangles.
//!
//! A world unit is one screen pixel.  Positions are stored in sub-units of
//! `1 / POS_SCALE` world units and velocities in sub-units of `1 / VEL_SCALE`
//! world units per second, so that one physics step (gravity accumulation and
//! `position += velocity * dt * MULT` with `dt` in whole milliseconds) is an
//! exact integer computation.

use vstd::prelude::*;

verus! {

/// Position sub-units per world unit (pixel).
pub const POS_SCALE: i64 = 1_000_000_000;

/// Velocity sub-units per world unit per second.
pub const VEL_SCALE: i64 = 1_000_000;

/// Largest position magnitude on which the physics is defined; far beyond
/// anything on screen, it only keeps `i64` arithmetic from overflowing.
pub const POS_LIMIT: i64 = 4_000_000_000_000_000_000;

/// Largest velocity magnitude on which the physics is defined.
pub const VEL_LIMIT: i64 = 100_000_000_000;

/// Largest position change a single physics step can make under
/// `POS_LIMIT`, `VEL_LIMIT` and the per-step time bound.
pub const STEP_LIMIT: i64 = 200_000_000_000_000_000;

/// Largest magnitude of a rectangle centre coordinate, in world units.
pub const COORD_LIMIT: i64 = 5_000_000_000;

/// An axis-aligned rectangle given by its centre in world units and its
/// width and height in whole world units.  The edges follow the usual
/// screen convention: `y` grows downwards, so `top <= bottom`.
#[derive(Clone, Copy, PartialEq, Eq, Structural, Debug)]
pub struct Rect {
    pub cx: i64,
    pub cy: i64,
    pub w: u32,
    pub h: u32,
}

impl Rect {
    /// The x coordinate of the left edge: the centre moved left by half the
    /// width, halving rounding down.
    pub open spec fn left(self) -> int {
        self.cx - (self.w as int) / 2
    }

    /// The x coordinate of the right edge.
    pub open spec fn right(self) -> int {
        self.left() + self.w
    }

    /// The y coordinate of the top edge.
    pub open spec fn top(self) -> int {
        self.cy - (self.h as int) / 2
    }

    /// The y coordinate of the bottom edge.
    pub open spec fn bottom(self) -> int {
        self.top() + self.h
    }

    /// The centre lies within `COORD_LIMIT`, so edge arithmetic fits in `i64`.
    pub open spec fn in_range(self) -> bool {
        -COORD_LIMIT <= self.cx <= COORD_LIMIT && -COORD_LIMIT <= self.cy <= COORD_LIMIT
    }

    /// Builds the rectangle with the given centre and size.
    pub fn from_center(cx: i64, cy: i64, w: u32, h: u32) -> (r: Rect)
        ensures
            r == (Rect { cx, cy, w, h }),
    {
        Rect { cx, cy, w, h }
    }

    /// The x coordinate of the top edge as a value; mirrors `top()`.
    pub fn top_edge(&self) -> (t: i64)
        requires
            self.in_range(),
        ensures
            t == self.top(),
    {
        self.cy - (self.h / 2) as i64
    }

    /// Whether `self` and `other` overlap in a region of positive area.
    /// Rectangles that merely share an edge or a corner do not overlap.
    pub fn has_intersection(&self, other: &Rect) -> (r: bool)
        requires
            self.in_range(),
            other.in_range(),
        ensures
            r == rects_overlap(*self, *other),
    {
        let a_left = self.cx - (self.w / 2) as i64;
        let a_right = a_left + self.w as i64;
        let a_top = self.cy - (self.h / 2) as i64;
        let a_bottom = a_top + self.h as i64;
        let b_left = other.cx - (other.w / 2) as i64;
        let b_right = b_left + other.w as i64;
        let b_top = other.cy - (other.h / 2) as i64;
        let b_bottom = b_top + other.h as i64;
        a_left < b_right && a_right > b_left && a_top < b_bottom && a_bottom > b_top
    }
}

/// Strict axis-aligned overlap: the intersection has positive area.
pub open spec fn rects_overlap(a: Rect, b: Rect) -> bool {
    &&& a.left() < b.right()
    &&& a.right() > b.left()
    &&& a.top() < b.bottom()
    &&& a.bottom() > b.top()
}

/// The whole world unit a fixed-point position lies in, rounding towards
/// negative infinity (the floor of `p / POS_SCALE`).
pub open spec fn spec_to_units(p: int) -> int {
    p / (POS_SCALE as int)
}

/// Converts a fixed-point position to whole world units, rounding towards
/// negative infinity.
pub fn to_units(p: i64) -> (r: i64)
    requires
        -POS_LIMIT - STEP_LIMIT <= p <= POS_LIMIT + STEP_LIMIT,
    ensures
        r == spec_to_units(p as int),
{
    if p >= 0 {
        p / POS_SCALE
    } else {
        -((-p + (POS_SCALE - 1)) / POS_SCALE)
    }
}

/// A position that is a whole number of world units converts back to that
/// number exactly.
pub proof fn lemma_units_exact(u: int)
    ensures
        spec_to_units(u * POS_SCALE) == u,
{
    vstd::arithmetic::div_mod::lemma_div_multiples_vanish(u, POS_SCALE as int);
    assert(POS_SCALE * u == u * POS_SCALE);
}

/// A position within `b` whole world units of the origin floors to a unit
/// count within `b` of the origin.
pub proof fn lemma_units_range(p: int, b: int)
    requires
        0 <= b,
        -b * POS_SCALE <= p <= b * POS_SCALE,
    ensures
        -b <= spec_to_units(p) <= b,
{
    lemma_units_exact(b);
    lemma_units_exact(-b);
    vstd::arithmetic::div_mod::lemma_div_is_ordered(-b * POS_SCALE, p, POS_SCALE as int);
    vstd::arithmetic::div_mod::lemma_div_is_ordered(p, b * POS_SCALE, POS_SCALE as int);
}

} // verus!
