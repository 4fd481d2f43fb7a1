//! Points, sizes and rectangles in display coordinates.
//!
//! The origin is the top left corner of the display, `x` grows to the right and
//! `y` grows downwards. A rectangle is given by its top left corner and its
//! size, so its far edges are exclusive and a rectangle of zero width or height
//! holds no point at all.
//!
//! The values are plain data that contracts can speak about. The geometric
//! operations themselves are those of `embedded-graphics-core`; each one is
//! reached through a small function at the end of this file whose contract
//! states what that crate computes.

use vstd::prelude::*;

verus! {

/// A position on, or off, the display.
#[derive(Clone, Copy, Debug, PartialEq, Eq, Structural)]
pub struct Point {
    /// Column.
    pub x: i32,
    /// Row.
    pub y: i32,
}

/// An extent in columns and rows.
#[derive(Clone, Copy, Debug, PartialEq, Eq, Structural)]
pub struct Size {
    /// Number of columns.
    pub width: u32,
    /// Number of rows.
    pub height: u32,
}

/// An axis-aligned rectangle.
#[derive(Clone, Copy, Debug, PartialEq, Eq, Structural)]
pub struct Rectangle {
    /// Top left corner.
    pub top_left: Point,
    /// Extent to the right of and below the top left corner.
    pub size: Size,
}

/// The smaller of two integers.
pub open spec fn lesser(a: int, b: int) -> int {
    if a <= b {
        a
    } else {
        b
    }
}

/// The larger of two integers.
pub open spec fn greater(a: int, b: int) -> int {
    if a >= b {
        a
    } else {
        b
    }
}

impl Point {
    /// The point in column `x` and row `y`.
    pub fn new(x: i32, y: i32) -> (p: Point)
        ensures
            p.x == x,
            p.y == y,
    {
        Point { x, y }
    }

    /// The origin.
    pub fn zero() -> (p: Point)
        ensures
            p == Point::spec_zero(),
    {
        Point { x: 0, y: 0 }
    }

    /// The origin.
    pub open spec fn spec_zero() -> Point {
        Point { x: 0, y: 0 }
    }

    /// The point made of the smaller column and the smaller row of two points.
    pub open spec fn spec_component_min(self, other: Point) -> Point {
        Point {
            x: lesser(self.x as int, other.x as int) as i32,
            y: lesser(self.y as int, other.y as int) as i32,
        }
    }

    /// The point made of the larger column and the larger row of two points.
    pub open spec fn spec_component_max(self, other: Point) -> Point {
        Point {
            x: greater(self.x as int, other.x as int) as i32,
            y: greater(self.y as int, other.y as int) as i32,
        }
    }

    /// Whether the differences between the coordinates of two points fit in `i32`.
    pub open spec fn difference_in_range(self, other: Point) -> bool {
        &&& i32::MIN <= self.x - other.x <= i32::MAX
        &&& i32::MIN <= self.y - other.y <= i32::MAX
    }
}

impl Size {
    /// The extent of `width` columns and `height` rows.
    pub fn new(width: u32, height: u32) -> (s: Size)
        ensures
            s.width == width,
            s.height == height,
    {
        Size { width, height }
    }
}

impl Rectangle {
    /// The rectangle with the given top left corner and size.
    pub fn new(top_left: Point, size: Size) -> (r: Rectangle)
        ensures
            r.top_left == top_left,
            r.size == size,
    {
        Rectangle { top_left, size }
    }

    /// The empty rectangle at the origin.
    pub fn zero() -> (r: Rectangle)
        ensures
            r == Rectangle::spec_zero(),
    {
        Rectangle { top_left: Point { x: 0, y: 0 }, size: Size { width: 0, height: 0 } }
    }

    /// The empty rectangle at the origin.
    pub open spec fn spec_zero() -> Rectangle {
        Rectangle { top_left: Point { x: 0, y: 0 }, size: Size { width: 0, height: 0 } }
    }

    /// Whether the rectangle holds no point.
    pub open spec fn is_zero_sized(self) -> bool {
        self.size.width == 0 || self.size.height == 0
    }

    /// Whether the corner arithmetic of the rectangle stays within `i32`.
    ///
    /// An empty rectangle has no far corner, so nothing is asked of it. Of any
    /// other rectangle the width and the height must be representable as
    /// coordinates, and so must the coordinates just past its right and bottom
    /// edges.
    pub open spec fn corner_in_range(self) -> bool {
        self.is_zero_sized() || {
            &&& self.size.width <= i32::MAX
            &&& self.size.height <= i32::MAX
            &&& self.top_left.x + self.size.width <= i32::MAX
            &&& self.top_left.y + self.size.height <= i32::MAX
        }
    }

    /// Whether the point in column `x` and row `y` lies inside the rectangle.
    pub open spec fn covers(self, x: int, y: int) -> bool {
        &&& self.top_left.x <= x < self.top_left.x + self.size.width
        &&& self.top_left.y <= y < self.top_left.y + self.size.height
    }

    /// The last point inside the rectangle, if it holds any.
    pub open spec fn spec_bottom_right(self) -> Option<Point> {
        if self.is_zero_sized() {
            None
        } else {
            Some(
                Point {
                    x: (self.top_left.x + self.size.width - 1) as i32,
                    y: (self.top_left.y + self.size.height - 1) as i32,
                },
            )
        }
    }

    /// The smallest rectangle that holds both points.
    pub open spec fn spec_with_corners(a: Point, b: Point) -> Rectangle {
        Rectangle {
            top_left: a.spec_component_min(b),
            size: Size {
                width: (greater(a.x as int, b.x as int) - lesser(a.x as int, b.x as int) + 1) as u32,
                height: (greater(a.y as int, b.y as int) - lesser(a.y as int, b.y as int) + 1) as u32,
            },
        }
    }

    /// The common part of two rectangles.
    ///
    /// Two rectangles that both hold points and share some give the rectangle of
    /// the shared points. An empty rectangle whose corner lies inside the other
    /// one is handed back as it is. In every other case the result is the empty
    /// rectangle at the origin.
    pub open spec fn spec_intersection(self, other: Rectangle) -> Rectangle {
        match (other.spec_bottom_right(), self.spec_bottom_right()) {
            (Some(other_br), Some(self_br)) => {
                if self.top_left.x <= other_br.x && other.top_left.x <= self_br.x && self.top_left.y
                    <= other_br.y && other.top_left.y <= self_br.y {
                    Rectangle::spec_with_corners(
                        self.top_left.spec_component_max(other.top_left),
                        self_br.spec_component_min(other_br),
                    )
                } else {
                    Rectangle::spec_zero()
                }
            },
            (Some(_), None) => {
                if other.covers(self.top_left.x as int, self.top_left.y as int) {
                    self
                } else {
                    Rectangle::spec_zero()
                }
            },
            (None, Some(_)) => {
                if self.covers(other.top_left.x as int, other.top_left.y as int) {
                    other
                } else {
                    Rectangle::spec_zero()
                }
            },
            (None, None) => Rectangle::spec_zero(),
        }
    }

    /// A rectangle that holds the same points of every display and whose
    /// corner arithmetic stays within `i32`: the rectangle itself where it is
    /// in range already, else its part in the quadrant of the non-negative
    /// coordinates below `i32::MAX`.
    pub open spec fn spec_clamped(self) -> Rectangle {
        if self.corner_in_range() {
            self
        } else {
            let left = greater(self.top_left.x as int, 0);
            let top = greater(self.top_left.y as int, 0);
            let right = lesser(self.top_left.x + self.size.width, i32::MAX as int);
            let bottom = lesser(self.top_left.y + self.size.height, i32::MAX as int);
            Rectangle {
                top_left: Point { x: left as i32, y: top as i32 },
                size: Size {
                    width: greater(right - left, 0) as u32,
                    height: greater(bottom - top, 0) as u32,
                },
            }
        }
    }

    /// The common part of two rectangles holds exactly the points that lie in
    /// both, and its own corner arithmetic stays in range.
    pub proof fn lemma_intersection_covers(self, other: Rectangle)
        requires
            self.corner_in_range(),
            other.corner_in_range(),
        ensures
            self.spec_intersection(other).corner_in_range(),
            forall|x: int, y: int|
                #[trigger] self.spec_intersection(other).covers(x, y) <==> self.covers(x, y)
                    && other.covers(x, y),
    {
    }

    /// A clamped rectangle has its corner arithmetic in range and holds the
    /// points of the rectangle that have non-negative coordinates below
    /// `i32::MAX`, among them all that any display can hold.
    pub proof fn lemma_clamped(self)
        ensures
            self.spec_clamped().corner_in_range(),
            forall|x: int, y: int|
                0 <= x < i32::MAX && 0 <= y < i32::MAX ==> (#[trigger] self.spec_clamped().covers(
                    x,
                    y,
                ) <==> self.covers(x, y)),
    {
    }

    /// The rectangle, cut down to the range in which its corners can be
    /// computed if it reaches beyond that range. No display can tell the
    /// result from the rectangle itself.
    pub fn clamped(&self) -> (r: Rectangle)
        ensures
            r == self.spec_clamped(),
            r.corner_in_range(),
            forall|x: int, y: int|
                0 <= x < i32::MAX && 0 <= y < i32::MAX ==> (#[trigger] r.covers(x, y)
                    <==> self.covers(x, y)),
    {
        let limit: i64 = i32::MAX as i64;
        let right: i64 = self.top_left.x as i64 + self.size.width as i64;
        let bottom: i64 = self.top_left.y as i64 + self.size.height as i64;
        if self.size.width == 0 || self.size.height == 0 || (self.size.width as i64 <= limit
            && self.size.height as i64 <= limit && right <= limit && bottom <= limit) {
            return *self;
        }
        let left: i64 = if self.top_left.x > 0 {
            self.top_left.x as i64
        } else {
            0
        };
        let top: i64 = if self.top_left.y > 0 {
            self.top_left.y as i64
        } else {
            0
        };
        let right: i64 = if right < limit {
            right
        } else {
            limit
        };
        let bottom: i64 = if bottom < limit {
            bottom
        } else {
            limit
        };
        let width: i64 = if right > left {
            right - left
        } else {
            0
        };
        let height: i64 = if bottom > top {
            bottom - top
        } else {
            0
        };
        Rectangle {
            top_left: Point { x: left as i32, y: top as i32 },
            size: Size { width: width as u32, height: height as u32 },
        }
    }
}

/// `Point::component_min` of `embedded-graphics-core`: the smaller column and
/// the smaller row of the two points.
#[verifier::external_body]
pub(crate) fn component_min(a: Point, b: Point) -> (r: Point)
    ensures
        r == a.spec_component_min(b),
{
    let p = embedded_graphics_core::geometry::Point::new(a.x, a.y).component_min(
        embedded_graphics_core::geometry::Point::new(b.x, b.y),
    );
    Point { x: p.x, y: p.y }
}

/// `Point::component_max` of `embedded-graphics-core`: the larger column and
/// the larger row of the two points.
#[verifier::external_body]
pub(crate) fn component_max(a: Point, b: Point) -> (r: Point)
    ensures
        r == a.spec_component_max(b),
{
    let p = embedded_graphics_core::geometry::Point::new(a.x, a.y).component_max(
        embedded_graphics_core::geometry::Point::new(b.x, b.y),
    );
    Point { x: p.x, y: p.y }
}

/// `Rectangle::bottom_right` of `embedded-graphics-core`: nothing for an empty
/// rectangle, else the top left corner moved by the size less one. The size is
/// taken as an `i32` and added to the corner, which fails where a side or the
/// far corner is out of range; such rectangles are left out.
#[verifier::external_body]
pub(crate) fn bottom_right(r: &Rectangle) -> (corner: Option<Point>)
    requires
        r.corner_in_range(),
    ensures
        corner == r.spec_bottom_right(),
{
    let outer = embedded_graphics_core::primitives::Rectangle::new(
        embedded_graphics_core::geometry::Point::new(r.top_left.x, r.top_left.y),
        embedded_graphics_core::geometry::Size::new(r.size.width, r.size.height),
    );
    match outer.bottom_right() {
        Some(p) => Some(Point { x: p.x, y: p.y }),
        None => None,
    }
}

/// `Rectangle::contains` of `embedded-graphics-core`: whether the point is not
/// left of or above the top left corner and not right of or below the bottom
/// right one; never for an empty rectangle.
#[verifier::external_body]
pub(crate) fn contains(r: &Rectangle, point: Point) -> (inside: bool)
    requires
        r.corner_in_range(),
    ensures
        inside == r.covers(point.x as int, point.y as int),
{
    let outer = embedded_graphics_core::primitives::Rectangle::new(
        embedded_graphics_core::geometry::Point::new(r.top_left.x, r.top_left.y),
        embedded_graphics_core::geometry::Size::new(r.size.width, r.size.height),
    );
    outer.contains(embedded_graphics_core::geometry::Point::new(point.x, point.y))
}

/// `Rectangle::with_corners` of `embedded-graphics-core`: the top left corner is
/// the componentwise minimum, each side is the absolute difference of the
/// coordinates plus one. The difference is taken in `i32`, so pairs whose
/// difference overflows are left out.
#[verifier::external_body]
pub(crate) fn with_corners(a: Point, b: Point) -> (r: Rectangle)
    requires
        a.difference_in_range(b),
    ensures
        r == Rectangle::spec_with_corners(a, b),
{
    let outer = embedded_graphics_core::primitives::Rectangle::with_corners(
        embedded_graphics_core::geometry::Point::new(a.x, a.y),
        embedded_graphics_core::geometry::Point::new(b.x, b.y),
    );
    Rectangle {
        top_left: Point { x: outer.top_left.x, y: outer.top_left.y },
        size: Size { width: outer.size.width, height: outer.size.height },
    }
}

/// `Rectangle::intersection` of `embedded-graphics-core`, called on `a` with
/// `b` as its argument. It works on the bottom right corners of both, so both
/// must have theirs in range. Its test for two ranges of columns or rows to
/// overlap, that an end of the first lies in the second or the first reaches
/// beyond both ends of the second, holds of two ranges that are not empty
/// exactly where each starts no later than the other ends; that is how the
/// contract puts it.
#[verifier::external_body]
pub(crate) fn intersection(a: &Rectangle, b: &Rectangle) -> (r: Rectangle)
    requires
        a.corner_in_range(),
        b.corner_in_range(),
    ensures
        r == a.spec_intersection(*b),
{
    let first = embedded_graphics_core::primitives::Rectangle::new(
        embedded_graphics_core::geometry::Point::new(a.top_left.x, a.top_left.y),
        embedded_graphics_core::geometry::Size::new(a.size.width, a.size.height),
    );
    let second = embedded_graphics_core::primitives::Rectangle::new(
        embedded_graphics_core::geometry::Point::new(b.top_left.x, b.top_left.y),
        embedded_graphics_core::geometry::Size::new(b.size.width, b.size.height),
    );
    let outer = first.intersection(&second);
    Rectangle {
        top_left: Point { x: outer.top_left.x, y: outer.top_left.y },
        size: Size { width: outer.size.width, height: outer.size.height },
    }
}

} // verus!
