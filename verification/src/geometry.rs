//! Integer geometry in logical (unscaled) output coordinates.
use vstd::prelude::*;

verus! {

/// A point in logical coordinates.
#[derive(Clone, Copy, Debug, PartialEq, Eq, Structural)]
pub struct Point {
    pub x: i32,
    pub y: i32,
}

/// A size in logical coordinates.
#[derive(Clone, Copy, Debug, PartialEq, Eq, Structural)]
pub struct Size {
    pub w: i32,
    pub h: i32,
}

/// An axis-aligned rectangle: a location (top-left corner) and a size.
#[derive(Clone, Copy, Debug, PartialEq, Eq, Structural)]
pub struct Rect {
    pub loc: Point,
    pub size: Size,
}

/// `a + b`, saturated to the `i32` range.
pub open spec fn saturating_add_i32(a: i32, b: i32) -> int {
    let s = a as int + b as int;
    if s > i32::MAX { i32::MAX as int } else if s < i32::MIN { i32::MIN as int } else { s }
}

/// Whether `p` lies inside `r`: the left and top edges are inside, the right
/// and bottom edges are not; the far edges are computed with saturation.
pub open spec fn rect_contains(r: Rect, p: Point) -> bool {
    &&& p.x >= r.loc.x
    &&& p.x < saturating_add_i32(r.loc.x, r.size.w)
    &&& p.y >= r.loc.y
    &&& p.y < saturating_add_i32(r.loc.y, r.size.h)
}

/// `a + b`, saturated to the `i32` range (widened to `i64`).
fn saturating_add(a: i32, b: i32) -> (r: i64)
    ensures
        r == saturating_add_i32(a, b),
{
    let s = a as i64 + b as i64;
    if s > i32::MAX as i64 {
        i32::MAX as i64
    } else if s < i32::MIN as i64 {
        i32::MIN as i64
    } else {
        s
    }
}

impl Point {
    pub fn new(x: i32, y: i32) -> (r: Point)
        ensures
            r.x == x,
            r.y == y,
    {
        Point { x, y }
    }
}

impl Size {
    pub fn new(w: i32, h: i32) -> (r: Size)
        ensures
            r.w == w,
            r.h == h,
    {
        Size { w, h }
    }
}

impl Rect {
    pub fn new(loc: Point, size: Size) -> (r: Rect)
        ensures
            r.loc == loc,
            r.size == size,
    {
        Rect { loc, size }
    }

    /// Whether `p` lies inside the rectangle (see [`rect_contains`]).
    pub fn contains(&self, p: Point) -> (r: bool)
        ensures
            r == rect_contains(*self, p),
    {
        p.x >= self.loc.x && (p.x as i64) < saturating_add(self.loc.x, self.size.w) && p.y
            >= self.loc.y && (p.y as i64) < saturating_add(self.loc.y, self.size.h)
    }
}

} // verus!
