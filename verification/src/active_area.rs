//! Bounding box of everything drawn since the last reset.

use vstd::prelude::*;
use crate::geometry::{bottom_right, component_max, component_min, with_corners, Point, Rectangle};

verus! {

/// What a tracker knows: whether anything was recorded, and the corners that
/// the recorded points span.
pub struct Extent {
    /// Whether a point or a non-empty rectangle has been recorded.
    pub touched: bool,
    /// Smallest column and row recorded so far.
    pub min: Point,
    /// Largest column and row recorded so far.
    pub max: Point,
}

impl Extent {
    /// The state in which nothing has been recorded on a display of the given
    /// size: the corners are inverted, so that the first point replaces both.
    pub open spec fn initial(width: u32, height: u32) -> Extent {
        Extent {
            touched: false,
            min: Point {
                x: (if width == 0 {
                    0
                } else {
                    width - 1
                }) as i32,
                y: (if height == 0 {
                    0
                } else {
                    height - 1
                }) as i32,
            },
            max: Point { x: 0, y: 0 },
        }
    }

    /// The state after recording one more point.
    pub open spec fn with_point(self, point: Point) -> Extent {
        Extent {
            touched: true,
            min: self.min.spec_component_min(point),
            max: self.max.spec_component_max(point),
        }
    }

    /// The state after recording a rectangle: its two corners, or nothing where
    /// it is empty.
    pub open spec fn with_rect(self, rect: Rectangle) -> Extent {
        match rect.spec_bottom_right() {
            Some(corner) => self.with_point(rect.top_left).with_point(corner),
            None => self,
        }
    }

    /// The rectangle that is reported: empty while nothing is recorded, else
    /// the one that spans both corners inclusively.
    pub open spec fn rectangle(self) -> Rectangle {
        if self.touched {
            Rectangle::spec_with_corners(self.min, self.max)
        } else {
            Rectangle::spec_zero()
        }
    }

    /// Whether the sides of the reported rectangle can be computed in `i32`.
    pub open spec fn span_in_range(self) -> bool {
        self.touched ==> self.min.difference_in_range(self.max)
    }

    /// Whether the state is one that points of a display of the given size
    /// lead to: untouched and initial, or touched with ordered corners on the
    /// display.
    pub open spec fn within(self, width: u32, height: u32) -> bool {
        if self.touched {
            &&& 0 <= self.min.x <= self.max.x < width
            &&& 0 <= self.min.y <= self.max.y < height
        } else {
            self == Extent::initial(width, height)
        }
    }
}

/// Whether `rect` is the smallest rectangle that holds all the points: it
/// covers each of them, and each of its four edges passes through one.
pub open spec fn is_bounding_box(rect: Rectangle, points: Seq<Point>) -> bool {
    &&& forall|i: int|
        0 <= i < points.len() ==> rect.covers((#[trigger] points[i]).x as int, points[i].y as int)
    &&& exists|i: int| 0 <= i < points.len() && (#[trigger] points[i]).x == rect.top_left.x
    &&& exists|i: int| 0 <= i < points.len() && (#[trigger] points[i]).y == rect.top_left.y
    &&& exists|i: int|
        0 <= i < points.len() && (#[trigger] points[i]).x == rect.top_left.x + rect.size.width - 1
    &&& exists|i: int|
        0 <= i < points.len() && (#[trigger] points[i]).y == rect.top_left.y + rect.size.height - 1
}

/// Whether every one of the points lies on a display of the given size.
pub open spec fn all_on_display(points: Seq<Point>, width: u32, height: u32) -> bool {
    forall|i: int|
        0 <= i < points.len() ==> 0 <= (#[trigger] points[i]).x < width && 0 <= points[i].y < height
}

impl Extent {
    /// The state after recording the points one after the other.
    pub open spec fn with_points(self, points: Seq<Point>) -> Extent
        decreases points.len(),
    {
        if points.len() == 0 {
            self
        } else {
            self.with_points(points.drop_last()).with_point(points.last())
        }
    }

    /// Whether the corners are the extremes of the points, and the state is
    /// touched exactly if there are any.
    pub open spec fn spans(self, points: Seq<Point>) -> bool {
        &&& self.touched <==> points.len() > 0
        &&& self.touched ==> {
            &&& forall|i: int|
                0 <= i < points.len() ==> self.min.x <= (#[trigger] points[i]).x <= self.max.x
                    && self.min.y <= points[i].y <= self.max.y
            &&& exists|i: int| 0 <= i < points.len() && (#[trigger] points[i]).x == self.min.x
            &&& exists|i: int| 0 <= i < points.len() && (#[trigger] points[i]).y == self.min.y
            &&& exists|i: int| 0 <= i < points.len() && (#[trigger] points[i]).x == self.max.x
            &&& exists|i: int| 0 <= i < points.len() && (#[trigger] points[i]).y == self.max.y
        }
    }

    /// Recording one more point of the display keeps the corners at the
    /// extremes of all points recorded.
    pub proof fn lemma_spans_one_more(self, width: u32, height: u32, points: Seq<Point>, point: Point)
        requires
            0 < width <= i32::MAX,
            0 < height <= i32::MAX,
            self.within(width, height),
            self.spans(points),
            0 <= point.x < width,
            0 <= point.y < height,
        ensures
            self.with_point(point).within(width, height),
            self.with_point(point).spans(points.push(point)),
    {
        let next = self.with_point(point);
        let more = points.push(point);
        let last = points.len() as int;
        assert(more[last] == point);
        if self.touched {
            let i0 = choose|i: int| 0 <= i < points.len() && (#[trigger] points[i]).x == self.min.x;
            let i1 = choose|i: int| 0 <= i < points.len() && (#[trigger] points[i]).y == self.min.y;
            let i2 = choose|i: int| 0 <= i < points.len() && (#[trigger] points[i]).x == self.max.x;
            let i3 = choose|i: int| 0 <= i < points.len() && (#[trigger] points[i]).y == self.max.y;
            assert(more[i0] == points[i0] && more[i1] == points[i1] && more[i2] == points[i2]
                && more[i3] == points[i3]);
            let j0 = if point.x < self.min.x {
                last
            } else {
                i0
            };
            let j1 = if point.y < self.min.y {
                last
            } else {
                i1
            };
            let j2 = if point.x > self.max.x {
                last
            } else {
                i2
            };
            let j3 = if point.y > self.max.y {
                last
            } else {
                i3
            };
            assert(more[j0].x == next.min.x);
            assert(more[j1].y == next.min.y);
            assert(more[j2].x == next.max.x);
            assert(more[j3].y == next.max.y);
        }
        assert forall|i: int| 0 <= i < more.len() implies next.min.x <= (#[trigger] more[i]).x
            <= next.max.x && next.min.y <= more[i].y <= next.max.y by {
            if i < last {
                assert(more[i] == points[i]);
            }
        }
    }

    /// Active-area soundness of the tracker: after any points of the display
    /// have been recorded, the reported rectangle is the exact bounding box of
    /// those points, and it is empty if there were none.
    pub proof fn lemma_reports_bounding_box(width: u32, height: u32, points: Seq<Point>)
        requires
            0 < width <= i32::MAX,
            0 < height <= i32::MAX,
            all_on_display(points, width, height),
        ensures
            Extent::initial(width, height).with_points(points).within(width, height),
            Extent::initial(width, height).with_points(points).spans(points),
            points.len() == 0 ==> Extent::initial(width, height).with_points(points).rectangle()
                == Rectangle::spec_zero(),
            points.len() > 0 ==> is_bounding_box(
                Extent::initial(width, height).with_points(points).rectangle(),
                points,
            ),
        decreases points.len(),
    {
        let start = Extent::initial(width, height);
        if points.len() > 0 {
            let front = points.drop_last();
            Self::lemma_reports_bounding_box(width, height, front);
            start.with_points(front).lemma_spans_one_more(width, height, front, points.last());
            assert(front.push(points.last()) =~= points);
            start.with_points(points).lemma_spans_bounding_box(points);
        }
    }

    /// A touched state whose corners are the extremes of the points reports
    /// their bounding box.
    pub proof fn lemma_spans_bounding_box(self, points: Seq<Point>)
        requires
            self.touched,
            self.spans(points),
            self.span_in_range(),
        ensures
            is_bounding_box(self.rectangle(), points),
    {
        let rect = self.rectangle();
        let i0 = choose|i: int| 0 <= i < points.len() && (#[trigger] points[i]).x == self.min.x;
        let i1 = choose|i: int| 0 <= i < points.len() && (#[trigger] points[i]).y == self.min.y;
        let i2 = choose|i: int| 0 <= i < points.len() && (#[trigger] points[i]).x == self.max.x;
        let i3 = choose|i: int| 0 <= i < points.len() && (#[trigger] points[i]).y == self.max.y;
        assert(self.min.x <= points[i2].x && self.min.y <= points[i3].y);
        assert(points[i0].x == rect.top_left.x);
        assert(points[i1].y == rect.top_left.y);
        assert(points[i2].x == rect.top_left.x + rect.size.width - 1);
        assert(points[i3].y == rect.top_left.y + rect.size.height - 1);
    }
}

/// Tracker of the area of a `W` by `H` display that has been drawn to.
#[derive(Debug, PartialEq)]
pub struct ActiveArea<const W: u32, const H: u32> {
    min: Point,
    max: Point,
    touched: bool,
}

impl<const W: u32, const H: u32> View for ActiveArea<W, H> {
    type V = Extent;

    closed spec fn view(&self) -> Extent {
        Extent { touched: self.touched, min: self.min, max: self.max }
    }
}

impl<const W: u32, const H: u32> ActiveArea<W, H> {
    /// Whether the last column and the last row of the display are valid
    /// coordinates.
    pub open spec fn dimensions_in_range() -> bool {
        W <= 0x8000_0000 && H <= 0x8000_0000
    }

    /// A tracker that has recorded nothing.
    pub fn new() -> (area: Self)
        requires
            Self::dimensions_in_range(),
        ensures
            area@ == Extent::initial(W, H),
    {
        Self {
            min: Point::new(W.saturating_sub(1) as i32, H.saturating_sub(1) as i32),
            max: Point::zero(),
            touched: false,
        }
    }

    /// Records a point: the tracker is touched and its corners grow to hold
    /// the point.
    pub fn update_from_point(&mut self, point: Point)
        ensures
            final(self)@ == old(self)@.with_point(point),
    {
        self.touched = true;

        self.min = component_min(self.min, point);
        self.max = component_max(self.max, point);
    }

    /// Records the two corners of a rectangle. An empty rectangle is not
    /// recorded and does not touch the tracker.
    pub fn update_from_rect(&mut self, rect: Rectangle)
        requires
            rect.corner_in_range(),
        ensures
            final(self)@ == old(self)@.with_rect(rect),
    {
        if let Some(br) = bottom_right(&rect) {
            self.update_from_point(rect.top_left);
            self.update_from_point(br);
        }
    }

    /// Forgets everything recorded.
    pub fn clear(&mut self)
        requires
            Self::dimensions_in_range(),
        ensures
            final(self)@ == Extent::initial(W, H),
    {
        *self = Self::new()
    }

    /// The rectangle containing the active area.
    pub fn rectangle(&self) -> (rect: Rectangle)
        requires
            self@.span_in_range(),
        ensures
            rect == self@.rectangle(),
    {
        if self.touched {
            with_corners(self.min, self.max)
        } else {
            Rectangle::zero()
        }
    }
}

} // verus!
