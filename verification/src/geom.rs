//! Integer geometry: points, rectangles and the bounds that keep every
//! coordinate computation free of overflow.

use vstd::prelude::*;

verus! {

/// Upper bound on a bounding-box dimension accepted at construction.
pub const DIM_MAX: i64 = 1_000_000_000;

/// Upper bound on font sizes, paddings and spacing parameters.
pub const SIZE_MAX: i64 = 1_000_000;

/// Upper bound on a font advance (in font units) and on units-per-em.
pub const ADVANCE_MAX: i64 = 1_000_000;

/// A scaled character width never exceeds `ADVANCE_MAX * SIZE_MAX`.
pub const CHAR_WIDTH_MAX: i64 = 1_000_000_000_000;

/// Vertical cursor positions saturate at this magnitude.  It lies far beyond
/// any doubled box height, so the saturation never changes whether content is
/// judged to overflow a box.
pub const COORD_LIMIT: i64 = 1_000_000_000_000_000;

/// Drawn outlines are inset by the line thickness: one typographic point,
/// a thousand layout units.
pub const LINE_THICKNESS: i64 = 1_000;

/// Rectangle arithmetic stays exact within this wider range; every rectangle
/// the engine produces lies far inside it.
pub const WIDE_LIMIT: i64 = 4_000_000_000_000_000;

/// A point in layout units.  The vertical axis grows downward.
#[derive(Clone, Copy, PartialEq, Eq, Structural, Debug)]
pub struct Point {
    pub x: i64,
    pub y: i64,
}

/// An axis-aligned rectangle: origin (top-left) plus extent.
#[derive(Clone, Copy, PartialEq, Eq, Structural, Debug)]
pub struct Rect {
    pub x: i64,
    pub y: i64,
    pub w: i64,
    pub h: i64,
}

/// True when `v` lies within the saturation bounds.
pub open spec fn in_coord_range(v: int) -> bool {
    -COORD_LIMIT <= v <= COORD_LIMIT
}

/// True when `v` lies within the wider rectangle-arithmetic bounds.
pub open spec fn in_wide_range(v: int) -> bool {
    -WIDE_LIMIT <= v <= WIDE_LIMIT
}

/// Addition that saturates at `COORD_LIMIT`.
pub open spec fn clip_add(a: int, b: int) -> int {
    if a + b > COORD_LIMIT {
        COORD_LIMIT as int
    } else {
        a + b
    }
}

/// Subtraction that saturates at `-COORD_LIMIT`.
pub open spec fn clip_sub(a: int, b: int) -> int {
    if a - b < -COORD_LIMIT {
        -COORD_LIMIT as int
    } else {
        a - b
    }
}

/// Executable saturating addition; exact while inputs stay in range.
pub fn coord_add(a: i64, b: i64) -> (r: i64)
    requires
        in_coord_range(a as int),
        in_coord_range(b as int),
    ensures
        r as int == clip_add(a as int, b as int),
{
    let wide: i128 = a as i128 + b as i128;
    if wide > COORD_LIMIT as i128 {
        COORD_LIMIT
    } else {
        wide as i64
    }
}

/// Executable saturating subtraction; exact while inputs stay in range.
pub fn coord_sub(a: i64, b: i64) -> (r: i64)
    requires
        in_coord_range(a as int),
        in_coord_range(b as int),
    ensures
        r as int == clip_sub(a as int, b as int),
{
    let wide: i128 = a as i128 - b as i128;
    if wide < -(COORD_LIMIT as i128) {
        -COORD_LIMIT
    } else {
        wide as i64
    }
}

impl Rect {
    /// Every field within the wider rectangle-arithmetic bounds.
    pub open spec fn fields_in_range(self) -> bool {
        in_wide_range(self.x as int) && in_wide_range(self.y as int)
            && in_wide_range(self.w as int) && in_wide_range(self.h as int)
    }

    pub fn new(x: i64, y: i64, w: i64, h: i64) -> (r: Rect)
        ensures
            r == (Rect { x, y, w, h }),
    {
        Rect { x, y, w, h }
    }

    /// Grow the rectangle outward by `d` on every side.
    pub open spec fn spec_dilate(self, d: i64) -> Rect {
        Rect {
            x: (self.x - d) as i64,
            y: (self.y - d) as i64,
            w: (self.w + 2 * d) as i64,
            h: (self.h + 2 * d) as i64,
        }
    }

    /// Shrink the rectangle inward by `d` on every side.
    pub open spec fn spec_contract(self, d: i64) -> Rect {
        Rect {
            x: (self.x + d) as i64,
            y: (self.y + d) as i64,
            w: (self.w - 2 * d) as i64,
            h: (self.h - 2 * d) as i64,
        }
    }

    pub fn dilate(self, d: i64) -> (r: Rect)
        requires
            self.fields_in_range(),
            in_wide_range(d as int),
        ensures
            r == self.spec_dilate(d),
            r.x as int == self.x - d,
            r.y as int == self.y - d,
            r.w as int == self.w + 2 * d,
            r.h as int == self.h + 2 * d,
    {
        Rect { x: self.x - d, y: self.y - d, w: self.w + 2 * d, h: self.h + 2 * d }
    }

    pub fn contract(self, d: i64) -> (r: Rect)
        requires
            self.fields_in_range(),
            in_wide_range(d as int),
        ensures
            r == self.spec_contract(d),
            r.x as int == self.x + d,
            r.y as int == self.y + d,
            r.w as int == self.w - 2 * d,
            r.h as int == self.h - 2 * d,
    {
        Rect { x: self.x + d, y: self.y + d, w: self.w - 2 * d, h: self.h - 2 * d }
    }
}

} // verus!
