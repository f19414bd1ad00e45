//! Points of the plane on a grid of whole units, and the two axes.

use vstd::prelude::*;

verus! {

/// Grid units in one metre: coordinates are whole millimetres.
pub const UNITS_PER_METRE: i32 = 1_000;

/// One of the two coordinate axes.
#[derive(Clone, Copy, Debug, PartialEq, Eq, Structural)]
pub enum Axis {
    X,
    Y,
}

/// A point of the plane, in grid units.
#[derive(Clone, Copy, Debug, PartialEq, Eq, Structural)]
pub struct Point2D {
    pub x: i32,
    pub y: i32,
}

impl Point2D {
    /// The coordinate of the point along `axis`.
    pub open spec fn along(self, axis: Axis) -> int {
        match axis {
            Axis::X => self.x as int,
            Axis::Y => self.y as int,
        }
    }

    /// The square of the Euclidean distance between two points.
    pub open spec fn squared_distance(self, other: Point2D) -> int {
        (self.x - other.x) * (self.x - other.x) + (self.y - other.y) * (self.y - other.y)
    }

    /// Builds a point from its two coordinates.
    pub fn new(x: i32, y: i32) -> (p: Self)
        ensures
            p == (Point2D { x, y }),
    {
        Self { x, y }
    }

    /// Reads the coordinate along `axis`.
    pub fn coordinate(&self, axis: Axis) -> (c: i32)
        ensures
            c == self.along(axis),
    {
        match axis {
            Axis::X => self.x,
            Axis::Y => self.y,
        }
    }

    /// Calculates the squared distance to another point. The result is
    /// exact: two coordinates differ by less than 2^32, so the sum of the
    /// two squares stays below 2^65.
    pub fn squared_distance_to(&self, other: &Point2D) -> (d: u128)
        ensures
            d == self.squared_distance(*other),
    {
        let dx: i128 = self.x as i128 - other.x as i128;
        let dy: i128 = self.y as i128 - other.y as i128;
        proof {
            lemma_square_bounds(dx as int);
            lemma_square_bounds(dy as int);
        }
        (dx * dx + dy * dy) as u128
    }
}

/// The keys by which one axis orders the points: their coordinates along
/// it, by stable index.
pub open spec fn axis_keys(points: Seq<Point2D>, axis: Axis) -> Seq<int> {
    Seq::new(points.len(), |i: int| points[i].along(axis))
}

/// The square of a difference of two 32-bit coordinates is not negative
/// and stays below 2^64.
pub proof fn lemma_square_bounds(d: int)
    by (nonlinear_arith)
    requires
        -0x1_0000_0000 < d < 0x1_0000_0000,
    ensures
        0 <= d * d <= 0x1_0000_0000 * 0x1_0000_0000,
{
}

} // verus!
