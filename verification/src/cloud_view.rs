//! What a point cloud is, mathematically: its points, the order of each
//! axis, what adding and moving a point do to them, and which point a hit
//! test finds.

use crate::order::{
    insertion_rank, lemma_inserted_consistent, lemma_repositioned_consistent, AxisOrder,
};
use crate::point2d::{axis_keys, Axis, Point2D};
use vstd::prelude::*;

verus! {

/// The radius of a hit test, in grid units: a quarter of a metre.
pub const MAX_DISTANCE: i32 = 250;

/// The square of `MAX_DISTANCE`.
pub const MAX_DISTANCE_SQ: u128 = 62_500;

/// What a cloud holds: the points by stable index, the order of each axis,
/// and whether the orders are kept at all.
pub struct CloudView {
    pub points: Seq<Point2D>,
    pub order_x: AxisOrder,
    pub order_y: AxisOrder,
    pub is_sorted: bool,
}

impl CloudView {
    /// The coordinates of the points along `axis`, by stable index.
    pub open spec fn keys(self, axis: Axis) -> Seq<int> {
        axis_keys(self.points, axis)
    }

    /// The order of `axis`.
    pub open spec fn order(self, axis: Axis) -> AxisOrder {
        match axis {
            Axis::X => self.order_x,
            Axis::Y => self.order_y,
        }
    }

    /// The invariant of a cloud that keeps its orders: each is a
    /// consistent order of the points along its axis. A cloud that keeps
    /// none is bound by nothing.
    pub open spec fn wf(self) -> bool {
        self.is_sorted ==> self.order_x.consistent(self.keys(Axis::X)) && self.order_y.consistent(
            self.keys(Axis::Y),
        )
    }

    /// The rank at which a point whose coordinate along `axis` is `value`
    /// would enter: the number of points whose coordinate is at most
    /// `value`.
    pub open spec fn rank(self, axis: Axis, value: int) -> nat {
        insertion_rank(self.keys(axis), value)
    }

    /// The cloud after `p` has been added.
    pub open spec fn pushed(self, p: Point2D) -> CloudView {
        CloudView {
            points: self.points.push(p),
            order_x: if self.is_sorted {
                self.order_x.inserted(self.rank(Axis::X, p.x as int) as int)
            } else {
                self.order_x
            },
            order_y: if self.is_sorted {
                self.order_y.inserted(self.rank(Axis::Y, p.y as int) as int)
            } else {
                self.order_y
            },
            is_sorted: self.is_sorted,
        }
    }

    /// The point `index` with its coordinate along `axis` replaced.
    pub open spec fn point_with(self, axis: Axis, index: int, value: i32) -> Point2D {
        match axis {
            Axis::X => Point2D { x: value, y: self.points[index].y },
            Axis::Y => Point2D { x: self.points[index].x, y: value },
        }
    }

    /// The cloud after the coordinate of point `index` along `axis` has
    /// become `value`: the point is repositioned in the order of that axis,
    /// the other axis is left alone.
    pub open spec fn with_coordinate(self, axis: Axis, index: int, value: i32) -> CloudView {
        CloudView {
            points: self.points.update(index, self.point_with(axis, index, value)),
            order_x: if self.is_sorted && axis == Axis::X {
                self.order_x.repositioned(self.keys(Axis::X), index, value as int)
            } else {
                self.order_x
            },
            order_y: if self.is_sorted && axis == Axis::Y {
                self.order_y.repositioned(self.keys(Axis::Y), index, value as int)
            } else {
                self.order_y
            },
            is_sorted: self.is_sorted,
        }
    }

    /// The cloud after point `index` has been moved to `p`: each axis
    /// whose coordinate changes is repositioned, an axis whose coordinate
    /// stays is not touched.
    pub open spec fn updated(self, index: int, p: Point2D) -> CloudView {
        let along_x = if p.x != self.points[index].x {
            self.with_coordinate(Axis::X, index, p.x)
        } else {
            self
        };
        if p.y != self.points[index].y {
            along_x.with_coordinate(Axis::Y, index, p.y)
        } else {
            along_x
        }
    }

    /// The number of points whose coordinate along `axis` lies in the
    /// window around `p`: above `p`'s less `MAX_DISTANCE`, and at most
    /// `p`'s plus `MAX_DISTANCE`.
    pub open spec fn window(self, axis: Axis, p: Point2D) -> int {
        self.rank(axis, p.along(axis) + MAX_DISTANCE) - self.rank(axis, p.along(axis) - MAX_DISTANCE)
    }

    /// The axis whose window around `p` a hit test walks: the one that
    /// holds fewer points, X when both hold as many.
    pub open spec fn scan_axis(self, p: Point2D) -> Axis {
        if self.window(Axis::X, p) <= self.window(Axis::Y, p) {
            Axis::X
        } else {
            Axis::Y
        }
    }

    /// No point lies within `MAX_DISTANCE` of `p`.
    pub open spec fn none_within(self, p: Point2D) -> bool {
        forall|j: int|
            0 <= j < self.points.len() ==> #[trigger] p.squared_distance(self.points[j])
                >= MAX_DISTANCE_SQ
    }

    /// Point `index` is what a hit test at `p` finds: it lies within
    /// `MAX_DISTANCE` of `p`, no point lies nearer, and of the points that
    /// lie as near it has the lowest rank on the axis that is walked.
    pub open spec fn is_hit(self, p: Point2D, index: int) -> bool {
        let ranks = self.order(self.scan_axis(p)).positions;
        let least = p.squared_distance(self.points[index]);
        &&& 0 <= index < self.points.len()
        &&& least < MAX_DISTANCE_SQ
        &&& forall|j: int|
            0 <= j < self.points.len() ==> least < #[trigger] p.squared_distance(self.points[j])
                || (least == p.squared_distance(self.points[j]) && ranks[index] <= ranks[j])
    }
}

/// One change to a cloud.
pub enum Operation {
    /// A point is added.
    Push { p: Point2D },
    /// The point `index` is moved to `p`.
    Update { index: int, p: Point2D },
}

impl CloudView {
    /// The cloud after one operation. An update of a point that the cloud
    /// does not hold is refused and changes nothing.
    pub open spec fn after(self, operation: Operation) -> CloudView {
        match operation {
            Operation::Push { p } => self.pushed(p),
            Operation::Update { index, p } => if 0 <= index < self.points.len() {
                self.updated(index, p)
            } else {
                self
            },
        }
    }

    /// The cloud after a sequence of operations, the first one first.
    pub open spec fn after_all(self, operations: Seq<Operation>) -> CloudView
        decreases operations.len(),
    {
        if operations.len() == 0 {
            self
        } else {
            self.after_all(operations.drop_last()).after(operations.last())
        }
    }
}

/// Whatever points are added and moved, and in whatever order, the
/// invariant holds after each operation.
pub proof fn lemma_invariant_holds_throughout(cloud: CloudView, operations: Seq<Operation>)
    requires
        cloud.wf(),
    ensures
        cloud.after_all(operations).wf(),
        forall|n: int|
            0 <= n <= operations.len() ==> #[trigger] cloud.after_all(operations.take(n)).wf(),
{
    lemma_after_all_wf(cloud, operations);
    assert forall|n: int| 0 <= n <= operations.len() implies #[trigger] cloud.after_all(
        operations.take(n),
    ).wf() by {
        lemma_after_all_wf(cloud, operations.take(n));
    }
}

/// A sequence of operations keeps the invariant.
proof fn lemma_after_all_wf(cloud: CloudView, operations: Seq<Operation>)
    requires
        cloud.wf(),
    ensures
        cloud.after_all(operations).wf(),
    decreases operations.len(),
{
    if operations.len() > 0 {
        lemma_after_all_wf(cloud, operations.drop_last());
        let before = cloud.after_all(operations.drop_last());
        match operations.last() {
            Operation::Push { p } => lemma_pushed_wf(before, p),
            Operation::Update { index, p } => if 0 <= index < before.points.len() {
                lemma_updated_wf(before, index, p);
            },
        }
    }
}

/// Adding a point keeps the invariant.
pub proof fn lemma_pushed_wf(cloud: CloudView, p: Point2D)
    requires
        cloud.wf(),
    ensures
        cloud.pushed(p).wf(),
{
    if cloud.is_sorted {
        lemma_inserted_consistent(cloud.order_x, cloud.keys(Axis::X), p.x as int);
        lemma_inserted_consistent(cloud.order_y, cloud.keys(Axis::Y), p.y as int);
    }
}

/// Changing one coordinate of a point keeps the invariant.
pub proof fn lemma_with_coordinate_wf(cloud: CloudView, axis: Axis, index: int, value: i32)
    requires
        cloud.wf(),
        0 <= index < cloud.points.len(),
    ensures
        cloud.with_coordinate(axis, index, value).wf(),
        cloud.with_coordinate(axis, index, value).points.len() == cloud.points.len(),
{
    if cloud.is_sorted {
        lemma_repositioned_consistent(cloud.order(axis), cloud.keys(axis), index, value as int);
    }
}

/// Moving a point keeps the invariant.
pub proof fn lemma_updated_wf(cloud: CloudView, index: int, p: Point2D)
    requires
        cloud.wf(),
        0 <= index < cloud.points.len(),
    ensures
        cloud.updated(index, p).wf(),
        cloud.updated(index, p).points == cloud.points.update(index, p),
{
    let along_x = if p.x != cloud.points[index].x {
        cloud.with_coordinate(Axis::X, index, p.x)
    } else {
        cloud
    };
    lemma_with_coordinate_wf(cloud, Axis::X, index, p.x);
    lemma_with_coordinate_wf(along_x, Axis::Y, index, p.y);
}

/// Moving a point to where it is changes nothing: neither the points nor
/// any of the four arrays.
pub proof fn lemma_update_in_place(cloud: CloudView, index: int)
    requires
        0 <= index < cloud.points.len(),
    ensures
        cloud.updated(index, cloud.points[index]) == cloud,
{
}

/// Moving a point along one axis leaves the order of the other axis as it
/// was.
pub proof fn lemma_axes_independent(cloud: CloudView, index: int, p: Point2D)
    requires
        0 <= index < cloud.points.len(),
    ensures
        p.x == cloud.points[index].x ==> cloud.updated(index, p).order_x == cloud.order_x,
        p.y == cloud.points[index].y ==> cloud.updated(index, p).order_y == cloud.order_y,
{
}

/// A hit test has one answer: two points that both meet `is_hit` are one
/// point.
pub proof fn lemma_hit_is_unique(cloud: CloudView, p: Point2D, first: int, second: int)
    requires
        cloud.wf(),
        cloud.is_sorted,
        cloud.is_hit(p, first),
        cloud.is_hit(p, second),
    ensures
        first == second,
{
    let order = cloud.order(cloud.scan_axis(p));
    assert(p.squared_distance(cloud.points[first]) == p.squared_distance(cloud.points[second]));
    assert(order.positions[first] == order.positions[second]);
    assert(order.sorted[order.positions[first]] == first);
}

/// Where a point is hit, some point lies within `MAX_DISTANCE`.
pub proof fn lemma_hit_excludes_none(cloud: CloudView, p: Point2D, index: int)
    requires
        cloud.is_hit(p, index),
    ensures
        !cloud.none_within(p),
{
}

/// A point that lies `MAX_DISTANCE` or more away along one axis lies
/// outside the circle of that radius.
pub proof fn lemma_far_along_axis(p: Point2D, q: Point2D, axis: Axis)
    requires
        p.along(axis) - q.along(axis) >= MAX_DISTANCE || q.along(axis) - p.along(axis)
            >= MAX_DISTANCE,
    ensures
        p.squared_distance(q) >= MAX_DISTANCE_SQ,
{
    let dx = p.x - q.x;
    let dy = p.y - q.y;
    assert(dx * dx >= 0 && dy * dy >= 0) by (nonlinear_arith);
    assert(dx >= 250 || dx <= -250 ==> dx * dx >= 62_500) by (nonlinear_arith);
    assert(dy >= 250 || dy <= -250 ==> dy * dy >= 62_500) by (nonlinear_arith);
}

} // verus!
