//! Integer geometry in the physical pixel space of an output.

use vstd::prelude::*;

verus! {

/// A position, in physical pixels.
#[derive(Clone, Copy, Debug, PartialEq, Eq, Structural)]
pub struct Point {
    pub x: i32,
    pub y: i32,
}

/// An extent, in physical pixels.
#[derive(Clone, Copy, Debug, PartialEq, Eq, Structural)]
pub struct Size {
    pub w: i32,
    pub h: i32,
}

/// An axis-aligned rectangle, in physical pixels.
#[derive(Clone, Copy, Debug, PartialEq, Eq, Structural)]
pub struct Rectangle {
    pub loc: Point,
    pub size: Size,
}

/// The eight ways an output or a buffer can be turned and mirrored.
#[derive(Clone, Copy, Debug, PartialEq, Eq, Structural)]
pub enum Transform {
    Normal,
    _90,
    _180,
    _270,
    Flipped,
    Flipped90,
    Flipped180,
    Flipped270,
}

/// Whether `v` can be held by an `i32`.
pub open spec fn fits(v: int) -> bool {
    i32::MIN <= v <= i32::MAX
}

/// The value of `v` clamped to the range of an `i32`.
pub open spec fn clamped(v: int) -> int {
    if v < i32::MIN {
        i32::MIN as int
    } else if v > i32::MAX {
        i32::MAX as int
    } else {
        v
    }
}

/// `a + b`, held at the nearest representable value where it overflows.
pub fn saturating_end(a: i32, b: i32) -> (r: i32)
    ensures
        r == clamped(a + b),
{
    let sum: i64 = a as i64 + b as i64;
    if sum < i32::MIN as i64 {
        i32::MIN
    } else if sum > i32::MAX as i64 {
        i32::MAX
    } else {
        sum as i32
    }
}

impl vstd::std_specs::convert::FromSpecImpl<(i32, i32)> for Point {
    open spec fn obeys_from_spec() -> bool {
        true
    }

    open spec fn from_spec(xy: (i32, i32)) -> Point {
        Point { x: xy.0, y: xy.1 }
    }
}

impl From<(i32, i32)> for Point {
    fn from(xy: (i32, i32)) -> (r: Point) {
        Point { x: xy.0, y: xy.1 }
    }
}

impl vstd::std_specs::convert::FromSpecImpl<(i32, i32)> for Size {
    open spec fn obeys_from_spec() -> bool {
        true
    }

    open spec fn from_spec(wh: (i32, i32)) -> Size {
        Size { w: wh.0, h: wh.1 }
    }
}

impl From<(i32, i32)> for Size {
    fn from(wh: (i32, i32)) -> (r: Size) {
        Size { w: wh.0, h: wh.1 }
    }
}

impl Point {
    pub fn new(x: i32, y: i32) -> (r: Point)
        ensures
            r == (Point { x, y }),
    {
        Point { x, y }
    }

    /// Whether both coordinates of `self + other` are representable.
    pub open spec fn plus_fits(self, other: Point) -> bool {
        fits(self.x + other.x) && fits(self.y + other.y)
    }

    pub open spec fn plus_spec(self, other: Point) -> Point {
        Point { x: (self.x + other.x) as i32, y: (self.y + other.y) as i32 }
    }

    pub open spec fn minus_fits(self, other: Point) -> bool {
        fits(self.x - other.x) && fits(self.y - other.y)
    }

    pub open spec fn minus_spec(self, other: Point) -> Point {
        Point { x: (self.x - other.x) as i32, y: (self.y - other.y) as i32 }
    }

    pub fn plus(self, other: Point) -> (r: Point)
        requires
            self.plus_fits(other),
        ensures
            r == self.plus_spec(other),
    {
        Point { x: self.x + other.x, y: self.y + other.y }
    }

    pub fn minus(self, other: Point) -> (r: Point)
        requires
            self.minus_fits(other),
        ensures
            r == self.minus_spec(other),
    {
        Point { x: self.x - other.x, y: self.y - other.y }
    }
}

impl Size {
    pub fn new(w: i32, h: i32) -> (r: Size)
        ensures
            r == (Size { w, h }),
    {
        Size { w, h }
    }

    pub open spec fn non_negative(self) -> bool {
        self.w >= 0 && self.h >= 0
    }
}

impl Rectangle {
    pub fn new(loc: Point, size: Size) -> (r: Rectangle)
        ensures
            r == (Rectangle { loc, size }),
    {
        Rectangle { loc, size }
    }

    /// The rectangle of the given size whose top left corner is the origin.
    pub open spec fn from_size_spec(size: Size) -> Rectangle {
        Rectangle { loc: Point { x: 0, y: 0 }, size }
    }

    pub fn from_size(size: Size) -> (r: Rectangle)
        ensures
            r == Self::from_size_spec(size),
    {
        Rectangle { loc: Point { x: 0, y: 0 }, size }
    }

    /// The first column to the right of the rectangle.
    pub open spec fn right(self) -> int {
        clamped(self.loc.x + self.size.w)
    }

    /// The first row below the rectangle.
    pub open spec fn bottom(self) -> int {
        clamped(self.loc.y + self.size.h)
    }

    /// Whether the pixel at `(x, y)` belongs to the rectangle.
    pub open spec fn covers(self, x: int, y: int) -> bool {
        self.loc.x <= x < self.right() && self.loc.y <= y < self.bottom()
    }

    /// Whether the open interiors of the two rectangles meet.
    pub open spec fn overlaps_spec(self, other: Rectangle) -> bool {
        self.loc.x < other.right() && other.loc.x < self.right() && self.loc.y < other.bottom()
            && other.loc.y < self.bottom()
    }

    /// Whether `other` lies within `self`.
    pub open spec fn contains_spec(self, other: Rectangle) -> bool {
        other.loc.x >= self.loc.x && other.loc.y >= self.loc.y && other.right() <= self.right()
            && other.bottom() <= self.bottom()
    }

    pub open spec fn intersection_spec(self, other: Rectangle) -> Option<Rectangle> {
        if self.overlaps_spec(other) {
            let x = if self.loc.x >= other.loc.x { self.loc.x } else { other.loc.x };
            let y = if self.loc.y >= other.loc.y { self.loc.y } else { other.loc.y };
            let right = if self.right() <= other.right() { self.right() } else { other.right() };
            let bottom = if self.bottom() <= other.bottom() { self.bottom() } else { other.bottom() };
            Some(Rectangle {
                loc: Point { x, y },
                size: Size { w: (right - x) as i32, h: (bottom - y) as i32 },
            })
        } else {
            None
        }
    }

    /// Whether the rectangle has no negative extent and ends within range.
    pub open spec fn regular(self) -> bool {
        self.size.non_negative() && fits(self.loc.x + self.size.w) && fits(
            self.loc.y + self.size.h,
        )
    }

    pub fn overlaps(self, other: Rectangle) -> (r: bool)
        ensures
            r == self.overlaps_spec(other),
    {
        self.loc.x < saturating_end(other.loc.x, other.size.w) && other.loc.x < saturating_end(
            self.loc.x,
            self.size.w,
        ) && self.loc.y < saturating_end(other.loc.y, other.size.h) && other.loc.y
            < saturating_end(self.loc.y, self.size.h)
    }

    pub fn contains_rect(self, other: Rectangle) -> (r: bool)
        ensures
            r == self.contains_spec(other),
    {
        other.loc.x >= self.loc.x && other.loc.y >= self.loc.y && saturating_end(
            other.loc.x,
            other.size.w,
        ) <= saturating_end(self.loc.x, self.size.w) && saturating_end(other.loc.y, other.size.h)
            <= saturating_end(self.loc.y, self.size.h)
    }

    /// The part that both rectangles share, where their interiors meet.
    pub fn intersection(self, other: Rectangle) -> (r: Option<Rectangle>)
        ensures
            r == self.intersection_spec(other),
    {
        if !self.overlaps(other) {
            return None;
        }
        let x: i32 = if self.loc.x >= other.loc.x { self.loc.x } else { other.loc.x };
        let y: i32 = if self.loc.y >= other.loc.y { self.loc.y } else { other.loc.y };
        let self_right: i32 = saturating_end(self.loc.x, self.size.w);
        let other_right: i32 = saturating_end(other.loc.x, other.size.w);
        let self_bottom: i32 = saturating_end(self.loc.y, self.size.h);
        let other_bottom: i32 = saturating_end(other.loc.y, other.size.h);
        let right: i32 = if self_right <= other_right { self_right } else { other_right };
        let bottom: i32 = if self_bottom <= other_bottom { self_bottom } else { other_bottom };
        Some(Rectangle { loc: Point { x, y }, size: Size { w: right - x, h: bottom - y } })
    }
}

/// Overlapping is symmetric.
pub proof fn overlap_is_symmetric(a: Rectangle, b: Rectangle)
    ensures
        a.overlaps_spec(b) == b.overlaps_spec(a),
{
}

/// Two rectangles of positive extent overlap exactly when some pixel belongs to both.
pub proof fn overlap_means_a_shared_pixel(a: Rectangle, b: Rectangle)
    requires
        a.size.w > 0,
        a.size.h > 0,
        b.size.w > 0,
        b.size.h > 0,
        a.regular(),
        b.regular(),
    ensures
        a.overlaps_spec(b) <==> exists|x: int, y: int| a.covers(x, y) && b.covers(x, y),
{
    if a.overlaps_spec(b) {
        let x = if a.loc.x >= b.loc.x { a.loc.x as int } else { b.loc.x as int };
        let y = if a.loc.y >= b.loc.y { a.loc.y as int } else { b.loc.y as int };
        assert(a.covers(x, y) && b.covers(x, y));
    }
}

/// A pixel lies in the intersection of two rectangles exactly when it lies in both.
pub proof fn intersection_holds_the_shared_pixels(a: Rectangle, b: Rectangle, x: int, y: int)
    ensures
        (a.covers(x, y) && b.covers(x, y)) <==> (a.intersection_spec(b) matches Some(r)
            && r.covers(x, y)),
{
}

/// The intersection lies within both rectangles.
pub proof fn intersection_lies_within_both(a: Rectangle, b: Rectangle)
    ensures
        a.intersection_spec(b) matches Some(r) ==> a.contains_spec(r) && b.contains_spec(r),
{
}

} // verus!
