use vstd::prelude::*;

verus! {

/// A point in fixed-point logical coordinates.
#[derive(Clone, Copy, Debug, PartialEq, Eq, Structural)]
pub struct Point {
    pub x: i64,
    pub y: i64,
}

/// A width and a height in fixed-point logical coordinates.
#[derive(Clone, Copy, Debug, PartialEq, Eq, Structural)]
pub struct Size {
    pub w: i64,
    pub h: i64,
}

/// An axis-aligned rectangle: its top-left corner and its size.
#[derive(Clone, Copy, Debug, PartialEq, Eq, Structural)]
pub struct Rect {
    pub loc: Point,
    pub size: Size,
}

impl Rect {
    /// The point lies in the half-open box `[x, x + w) x [y, y + h)`.
    pub open spec fn has_point(self, p: Point) -> bool {
        &&& self.loc.x <= p.x
        &&& p.x < self.loc.x + self.size.w
        &&& self.loc.y <= p.y
        &&& p.y < self.loc.y + self.size.h
    }

    /// Twice the horizontal coordinate of the rectangle's centre.
    pub open spec fn center_x2(self) -> int {
        2 * self.loc.x + self.size.w
    }

    pub fn new(x: i64, y: i64, w: i64, h: i64) -> (r: Rect)
        ensures
            r.loc.x == x,
            r.loc.y == y,
            r.size.w == w,
            r.size.h == h,
    {
        Rect { loc: Point { x, y }, size: Size { w, h } }
    }

    /// Whether the point lies inside the rectangle (left and top edges
    /// included, right and bottom edges excluded).
    pub fn contains(&self, p: Point) -> (r: bool)
        ensures
            r == self.has_point(p),
    {
        let right: i128 = self.loc.x as i128 + self.size.w as i128;
        let bottom: i128 = self.loc.y as i128 + self.size.h as i128;
        self.loc.x <= p.x && (p.x as i128) < right && self.loc.y <= p.y && (p.y as i128) < bottom
    }

    /// Twice the horizontal coordinate of the centre, computed without overflow.
    pub fn center_x2_exec(&self) -> (r: i128)
        ensures
            r == self.center_x2(),
    {
        2 * (self.loc.x as i128) + self.size.w as i128
    }
}

/// Containment is bounded by the four edges: a point left of `x`, at or right
/// of `x + w`, above `y`, or at or below `y + h` is never inside, and every
/// point between them is. The width bounds a rectangle horizontally and the
/// height vertically.
pub proof fn lemma_contains_edges(r: Rect, p: Point)
    ensures
        p.x < r.loc.x ==> !r.has_point(p),
        p.x >= r.loc.x + r.size.w ==> !r.has_point(p),
        p.y < r.loc.y ==> !r.has_point(p),
        p.y >= r.loc.y + r.size.h ==> !r.has_point(p),
        r.loc.x <= p.x && p.x < r.loc.x + r.size.w && r.loc.y <= p.y && p.y < r.loc.y + r.size.h
            ==> r.has_point(p),
{
}

/// Only the height decides containment vertically and only the width
/// horizontally: changing the width keeps the answer for points that lie
/// within both widths, and changing the height keeps it for points that lie
/// within both heights.
pub proof fn lemma_contains_size_independence(r: Rect, w2: i64, h2: i64, p: Point)
    ensures
        p.x < r.loc.x + w2 && p.x < r.loc.x + r.size.w ==> r.has_point(p) == (Rect {
            size: Size { w: w2, h: r.size.h },
            ..r
        }).has_point(p),
        p.y < r.loc.y + h2 && p.y < r.loc.y + r.size.h ==> r.has_point(p) == (Rect {
            size: Size { w: r.size.w, h: h2 },
            ..r
        }).has_point(p),
{
}

} // verus!
