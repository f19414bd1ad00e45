//! The point cloud: the points by stable index, and one order index per
//! axis that every insertion and every move keeps in step with them.

use crate::axis_index::{as_ints, AxisOrderIndex};
use crate::cloud_view::{
    lemma_far_along_axis, lemma_pushed_wf, lemma_updated_wf, lemma_with_coordinate_wf, CloudView,
    MAX_DISTANCE, MAX_DISTANCE_SQ,
};
use crate::error::CloudError;
use crate::order::{lemma_rank_monotone, AxisOrder};
use crate::point2d::{Axis, Point2D};
use vstd::prelude::*;

verus! {

/// A Point2D collection that keeps, for each axis, the rank of every
/// point, and finds the point near a place from those ranks.
pub struct PointCloud2D {
    /// All the points in the collection, by stable index
    points: Vec<Point2D>,
    /// The order of the points along the X axis
    index_x: AxisOrderIndex,
    /// The order of the points along the Y axis
    index_y: AxisOrderIndex,
    /// Do we care about sorting points?
    is_sorted: bool,
}

impl View for PointCloud2D {
    type V = CloudView;

    closed spec fn view(&self) -> CloudView {
        CloudView {
            points: self.points@,
            order_x: self.index_x@,
            order_y: self.index_y@,
            is_sorted: self.is_sorted,
        }
    }
}

impl PointCloud2D {
    /// Creates a new empty PointCloud2D that keeps its orders
    pub fn new() -> (cloud: Self)
        ensures
            cloud@.wf(),
            cloud@ == (CloudView {
                points: Seq::empty(),
                order_x: AxisOrder::empty(),
                order_y: AxisOrder::empty(),
                is_sorted: true,
            }),
    {
        Self {
            points: Vec::new(),
            index_x: AxisOrderIndex::new(),
            index_y: AxisOrderIndex::new(),
            is_sorted: true,
        }
    }

    /// Creates a new empty PointCloud2D that keeps no order: adding a
    /// point costs nothing more than storing it, and every question about
    /// ranks is refused.
    pub fn new_unsorted() -> (cloud: Self)
        ensures
            cloud@.wf(),
            cloud@ == (CloudView {
                points: Seq::empty(),
                order_x: AxisOrder::empty(),
                order_y: AxisOrder::empty(),
                is_sorted: false,
            }),
    {
        Self {
            points: Vec::new(),
            index_x: AxisOrderIndex::new(),
            index_y: AxisOrderIndex::new(),
            is_sorted: false,
        }
    }

    /// Creates an empty PointCloud2D with a certain capacity
    pub fn with_capacity(n: usize) -> (cloud: Self)
        ensures
            cloud@.wf(),
            cloud@ == (CloudView {
                points: Seq::empty(),
                order_x: AxisOrder::empty(),
                order_y: AxisOrder::empty(),
                is_sorted: true,
            }),
    {
        Self {
            points: Vec::with_capacity(n),
            index_x: AxisOrderIndex::with_capacity(n),
            index_y: AxisOrderIndex::with_capacity(n),
            is_sorted: true,
        }
    }

    /// Builds a cloud from its points and its four arrays, if they are
    /// consistent with each other; a cloud that keeps no order takes any
    /// arrays.
    pub fn from_parts(
        points: Vec<Point2D>,
        positions_x: Vec<usize>,
        positions_y: Vec<usize>,
        sorted_x: Vec<usize>,
        sorted_y: Vec<usize>,
        is_sorted: bool,
    ) -> (built: Option<Self>)
        ensures
            built is Some <==> (CloudView {
                points: points@,
                order_x: AxisOrder { sorted: as_ints(sorted_x@), positions: as_ints(positions_x@) },
                order_y: AxisOrder { sorted: as_ints(sorted_y@), positions: as_ints(positions_y@) },
                is_sorted,
            }).wf(),
            built matches Some(cloud) ==> cloud@ == (CloudView {
                points: points@,
                order_x: AxisOrder { sorted: as_ints(sorted_x@), positions: as_ints(positions_x@) },
                order_y: AxisOrder { sorted: as_ints(sorted_y@), positions: as_ints(positions_y@) },
                is_sorted,
            }),
    {
        let cloud = Self {
            points,
            index_x: AxisOrderIndex::from_parts(sorted_x, positions_x),
            index_y: AxisOrderIndex::from_parts(sorted_y, positions_y),
            is_sorted,
        };
        if cloud.check_consistency() {
            Some(cloud)
        } else {
            None
        }
    }

    /// Checks whether the structure is coherent: whether the invariant
    /// holds of it.
    pub fn check_consistency(&self) -> (ok: bool)
        ensures
            ok == self@.wf(),
    {
        if !self.is_sorted {
            // nothing to check
            return true;
        }
        self.index_x.is_consistent(&self.points, Axis::X) && self.index_y.is_consistent(
            &self.points,
            Axis::Y,
        )
    }

    /// Borrows the points
    pub fn points(&self) -> (points: &[Point2D])
        ensures
            points@ == self@.points,
    {
        self.points.as_slice()
    }

    /// The point with the given stable index.
    pub fn get(&self, stable_index: usize) -> (found: Result<Point2D, CloudError>)
        ensures
            stable_index < self@.points.len() ==> found == Ok::<Point2D, CloudError>(
                self@.points[stable_index as int],
            ),
            stable_index >= self@.points.len() ==> found == Err::<Point2D, CloudError>(
                CloudError::OutOfRange,
            ),
    {
        if stable_index < self.points.len() {
            Ok(self.points[stable_index])
        } else {
            Err(CloudError::OutOfRange)
        }
    }

    /// The stable indices by increasing rank along X
    pub fn sorted_x(&self) -> (ranks: &[usize])
        ensures
            as_ints(ranks@) == self@.order_x.sorted,
    {
        self.index_x.sorted()
    }

    /// The stable indices by increasing rank along Y
    pub fn sorted_y(&self) -> (ranks: &[usize])
        ensures
            as_ints(ranks@) == self@.order_y.sorted,
    {
        self.index_y.sorted()
    }

    /// The rank of each point along X
    pub fn positions_x(&self) -> (ranks: &[usize])
        ensures
            as_ints(ranks@) == self@.order_x.positions,
    {
        self.index_x.positions()
    }

    /// The rank of each point along Y
    pub fn positions_y(&self) -> (ranks: &[usize])
        ensures
            as_ints(ranks@) == self@.order_y.positions,
    {
        self.index_y.positions()
    }

    /// Does the cloud keep its orders?
    pub fn is_sorted(&self) -> (kept: bool)
        ensures
            kept == self@.is_sorted,
    {
        self.is_sorted
    }

    /// Checks if the PointCloud2D is empty
    pub fn is_empty(&self) -> (empty: bool)
        ensures
            empty == (self@.points.len() == 0),
    {
        self.points.is_empty()
    }

    /// Finds the position that a new point would have in the order of
    /// `axis`.
    fn find_point_position(&self, axis: Axis, value: i64) -> (found: Result<usize, CloudError>)
        requires
            self@.wf(),
        ensures
            match found {
                Ok(rank) => self@.is_sorted && rank == self@.rank(axis, value as int) && rank
                    <= self@.points.len(),
                Err(e) => !self@.is_sorted && e == CloudError::DegradedModeMisuse,
            },
    {
        if !self.is_sorted {
            return Err(CloudError::DegradedModeMisuse);
        }
        match axis {
            Axis::X => Ok(self.index_x.find_insertion_rank(&self.points, Axis::X, value)),
            Axis::Y => Ok(self.index_y.find_insertion_rank(&self.points, Axis::Y, value)),
        }
    }

    /// Finds the position that new point would have in the
    /// sorted_x.
    ///
    /// If the tested point is in the same position as an already existing
    /// point, it will be marked as being after
    pub fn find_point_position_x(&self, new_x: i64) -> (found: Result<usize, CloudError>)
        requires
            self@.wf(),
        ensures
            match found {
                Ok(rank) => self@.is_sorted && rank == self@.rank(Axis::X, new_x as int) && rank
                    <= self@.points.len(),
                Err(e) => !self@.is_sorted && e == CloudError::DegradedModeMisuse,
            },
            self@.is_sorted && self@.points.len() == 0 ==> found == Ok::<usize, CloudError>(0),
    {
        self.find_point_position(Axis::X, new_x)
    }

    /// Finds the position that new point would have in the
    /// sorted_y.
    ///
    /// If the tested point is in the same position as an already existing
    /// point, it will be marked as being after
    pub fn find_point_position_y(&self, new_y: i64) -> (found: Result<usize, CloudError>)
        requires
            self@.wf(),
        ensures
            match found {
                Ok(rank) => self@.is_sorted && rank == self@.rank(Axis::Y, new_y as int) && rank
                    <= self@.points.len(),
                Err(e) => !self@.is_sorted && e == CloudError::DegradedModeMisuse,
            },
            self@.is_sorted && self@.points.len() == 0 ==> found == Ok::<usize, CloudError>(0),
    {
        self.find_point_position(Axis::Y, new_y)
    }

    /// Adds a point to the cloud, identifying its position
    /// and updating the whole structure
    pub fn push(&mut self, p: Point2D)
        requires
            old(self)@.wf(),
        ensures
            final(self)@ == old(self)@.pushed(p),
            final(self)@.wf(),
    {
        proof {
            lemma_pushed_wf(self@, p);
        }
        if self.is_sorted {
            // Insert in X
            let index_x = self.index_x.find_insertion_rank(&self.points, Axis::X, p.x as i64);
            // Insert in Y
            let index_y = self.index_y.find_insertion_rank(&self.points, Axis::Y, p.y as i64);
            self.index_x.insert(index_x);
            self.index_y.insert(index_y);
        }
        // Push the point
        self.points.push(p);
    }

    /// Updates one coordinate of a point that the cloud holds.
    fn update_coordinate(&mut self, axis: Axis, point_index: usize, value: i32)
        requires
            old(self)@.wf(),
            point_index < old(self)@.points.len(),
        ensures
            final(self)@ == old(self)@.with_coordinate(axis, point_index as int, value),
            final(self)@.wf(),
    {
        proof {
            lemma_with_coordinate_wf(self@, axis, point_index as int, value);
        }
        let old_point = self.points[point_index];
        // We only care about positions when this is sorted
        if self.is_sorted {
            match axis {
                Axis::X => self.index_x.reposition(&self.points, Axis::X, point_index, value),
                Axis::Y => self.index_y.reposition(&self.points, Axis::Y, point_index, value),
            }
        }
        // Update point
        self.points[point_index] = match axis {
            Axis::X => Point2D { x: value, y: old_point.y },
            Axis::Y => Point2D { x: old_point.x, y: value },
        };
    }

    /// Updates the Y element of a point in the cloud
    pub fn update_point_y(&mut self, point_index: usize, new_y: i32) -> (done: Result<
        (),
        CloudError,
    >)
        requires
            old(self)@.wf(),
        ensures
            final(self)@.wf(),
            point_index < old(self)@.points.len() ==> done == Ok::<(), CloudError>(())
                && final(self)@ == old(self)@.with_coordinate(Axis::Y, point_index as int, new_y),
            point_index >= old(self)@.points.len() ==> done == Err::<(), CloudError>(
                CloudError::OutOfRange,
            ) && final(self)@ == old(self)@,
    {
        if point_index >= self.points.len() {
            return Err(CloudError::OutOfRange);
        }
        self.update_coordinate(Axis::Y, point_index, new_y);
        Ok(())
    }

    /// Updates the X element of a point in the cloud
    pub fn update_point_x(&mut self, point_index: usize, new_x: i32) -> (done: Result<
        (),
        CloudError,
    >)
        requires
            old(self)@.wf(),
        ensures
            final(self)@.wf(),
            point_index < old(self)@.points.len() ==> done == Ok::<(), CloudError>(())
                && final(self)@ == old(self)@.with_coordinate(Axis::X, point_index as int, new_x),
            point_index >= old(self)@.points.len() ==> done == Err::<(), CloudError>(
                CloudError::OutOfRange,
            ) && final(self)@ == old(self)@,
    {
        if point_index >= self.points.len() {
            return Err(CloudError::OutOfRange);
        }
        self.update_coordinate(Axis::X, point_index, new_x);
        Ok(())
    }

    /// Updates the X and Y position of points in point_index
    pub fn update_point(&mut self, point_index: usize, new_p: Point2D) -> (done: Result<
        (),
        CloudError,
    >)
        requires
            old(self)@.wf(),
        ensures
            final(self)@.wf(),
            point_index < old(self)@.points.len() ==> done == Ok::<(), CloudError>(())
                && final(self)@ == old(self)@.updated(point_index as int, new_p)
                && final(self)@.points == old(self)@.points.update(point_index as int, new_p),
            point_index < old(self)@.points.len() && new_p == old(self)@.points[point_index as int]
                ==> final(self)@ == old(self)@,
            point_index >= old(self)@.points.len() ==> done == Err::<(), CloudError>(
                CloudError::OutOfRange,
            ) && final(self)@ == old(self)@,
    {
        if point_index >= self.points.len() {
            return Err(CloudError::OutOfRange);
        }
        proof {
            lemma_updated_wf(self@, point_index as int, new_p);
        }
        let px = self.points[point_index].x;
        let py = self.points[point_index].y;
        if px != new_p.x {
            self.update_coordinate(Axis::X, point_index, new_p.x);
        }
        if py != new_p.y {
            self.update_coordinate(Axis::Y, point_index, new_p.y);
        }
        Ok(())
    }

    /// Moves a point
    pub fn translate_point(&mut self, point_index: usize, x_movement: i32, y_movement: i32) -> (done:
        Result<(), CloudError>)
        requires
            old(self)@.wf(),
            point_index < old(self)@.points.len() ==> {
                &&& i32::MIN <= old(self)@.points[point_index as int].x + x_movement <= i32::MAX
                &&& i32::MIN <= old(self)@.points[point_index as int].y + y_movement <= i32::MAX
            },
        ensures
            final(self)@.wf(),
            point_index < old(self)@.points.len() ==> done == Ok::<(), CloudError>(())
                && final(self)@ == old(self)@.updated(
                point_index as int,
                Point2D {
                    x: (old(self)@.points[point_index as int].x + x_movement) as i32,
                    y: (old(self)@.points[point_index as int].y + y_movement) as i32,
                },
            ),
            point_index >= old(self)@.points.len() ==> done == Err::<(), CloudError>(
                CloudError::OutOfRange,
            ) && final(self)@ == old(self)@,
    {
        if point_index >= self.points.len() {
            return Err(CloudError::OutOfRange);
        }
        let px = self.points[point_index].x;
        let py = self.points[point_index].y;
        self.update_point(point_index, Point2D::new(px + x_movement, py + y_movement))
    }

    /// Checks whether a point P is very close to
    /// another point in the Cloud
    ///
    /// The way this works is as follows:
    /// 1. Find the points that might be close enough (i.e., within the p +- MAX_DISTANCE square)
    /// 2. Check which direction contains less points (i.e., X or Y)
    /// 3. Iterate the candidate points, checking the distance. If smallest so far, mark for return
    pub fn test_world_point(&self, p: &Point2D) -> (hit: Result<Option<usize>, CloudError>)
        requires
            self@.wf(),
        ensures
            match hit {
                Ok(Some(index)) => self@.is_sorted && self@.is_hit(*p, index as int),
                Ok(None) => self@.is_sorted && self@.none_within(*p),
                Err(e) => !self@.is_sorted && e == CloudError::DegradedModeMisuse,
            },
            self@.is_sorted && self@.points.len() == 0 ==> hit == Ok::<Option<usize>, CloudError>(
                None,
            ),
    {
        if !self.is_sorted {
            return Err(CloudError::DegradedModeMisuse);
        }
        // 1. Find the points that might be close enough (i.e., within the p +- MAX_DISTANCE square)
        // Points outside of this rectangle cannot be "close enough"
        let min_index_x = self.index_x.find_insertion_rank(
            &self.points,
            Axis::X,
            p.x as i64 - MAX_DISTANCE as i64,
        );
        let max_index_x = self.index_x.find_insertion_rank(
            &self.points,
            Axis::X,
            p.x as i64 + MAX_DISTANCE as i64,
        );
        let min_index_y = self.index_y.find_insertion_rank(
            &self.points,
            Axis::Y,
            p.y as i64 - MAX_DISTANCE as i64,
        );
        let max_index_y = self.index_y.find_insertion_rank(
            &self.points,
            Axis::Y,
            p.y as i64 + MAX_DISTANCE as i64,
        );
        proof {
            lemma_rank_monotone(self@.keys(Axis::X), p.x - MAX_DISTANCE, p.x + MAX_DISTANCE);
            lemma_rank_monotone(self@.keys(Axis::Y), p.y - MAX_DISTANCE, p.y + MAX_DISTANCE);
        }
        let d_index_x = max_index_x - min_index_x;
        let d_index_y = max_index_y - min_index_y;

        // 2. Check which direction contains less points (i.e., X or Y)
        if d_index_x <= d_index_y {
            // there are less points to test in the X axis... iterate them all
            Ok(self.nearest_in_window(p, Axis::X, min_index_x, max_index_x))
        } else {
            // there are less points to test in the Y axis
            Ok(self.nearest_in_window(p, Axis::Y, min_index_y, max_index_y))
        }
    }

    /// Walks the ranks from `low` up to `high` on `axis` and keeps the
    /// point nearest to `p`, the first one of those that are as near,
    /// among those that lie within `MAX_DISTANCE`.
    fn nearest_in_window(&self, p: &Point2D, axis: Axis, low: usize, high: usize) -> (hit: Option<
        usize,
    >)
        requires
            self@.wf(),
            self@.is_sorted,
            axis == self@.scan_axis(*p),
            low <= high,
            self@.order(axis).splits_at(self@.keys(axis), p.along(axis) - MAX_DISTANCE, low as int),
            self@.order(axis).splits_at(self@.keys(axis), p.along(axis) + MAX_DISTANCE, high as int),
        ensures
            match hit {
                Some(index) => self@.is_hit(*p, index as int),
                None => self@.none_within(*p),
            },
    {
        let ghost order = self@.order(axis);
        let ghost keys = self@.keys(axis);
        let sorted = match axis {
            Axis::X => self.index_x.sorted(),
            Axis::Y => self.index_y.sorted(),
        };
        // initialize return
        let mut ret: Option<usize> = None;
        let mut min_squared_distance = MAX_DISTANCE_SQ;
        let ghost mut best_rank: int = low as int;

        // 3. Iterate the candidate points, checking the distance. If smallest so far, mark for return
        let mut other_position = low;
        while other_position < high
            invariant
                low <= other_position <= high <= order.sorted.len(),
                order == self@.order(axis),
                order.consistent(keys),
                keys == self@.keys(axis),
                as_ints(sorted@) == order.sorted,
                min_squared_distance <= MAX_DISTANCE_SQ,
                ret is None ==> min_squared_distance == MAX_DISTANCE_SQ,
                ret matches Some(index) ==> {
                    &&& low <= best_rank < other_position
                    &&& order.sorted[best_rank] == index
                    &&& min_squared_distance < MAX_DISTANCE_SQ
                    &&& min_squared_distance == p.squared_distance(self@.points[index as int])
                },
                forall|r: int|
                    low <= r < other_position ==> min_squared_distance <= p.squared_distance(
                        self@.points[#[trigger] order.sorted[r]],
                    ),
                ret is Some ==> forall|r: int|
                    low <= r < best_rank ==> min_squared_distance < p.squared_distance(
                        self@.points[#[trigger] order.sorted[r]],
                    ),
            decreases high - other_position,
        {
            // Get the point
            let other_index = sorted[other_position];
            assert(as_ints(sorted@)[other_position as int] == other_index);
            let other_p = &self.points[other_index];
            let sq_d = p.squared_distance_to(other_p);
            if sq_d < min_squared_distance {
                ret = Some(other_index);
                min_squared_distance = sq_d;
                proof {
                    best_rank = other_position as int;
                }
            }
            other_position += 1;
        }
        proof {
            assert forall|j: int| 0 <= j < self@.points.len() implies (low <= order.positions[j]
                < high || #[trigger] p.squared_distance(self@.points[j]) >= MAX_DISTANCE_SQ) by {
                // a point outside the window is too far along `axis` alone
                if !(low <= order.positions[j] < high) {
                    lemma_far_along_axis(*p, self@.points[j], axis);
                }
            }
            // a point inside the window was met at its rank
            assert forall|j: int| 0 <= j < self@.points.len() implies order.sorted[
                #[trigger] order.positions[j]
            ] == j by {}
        }
        // return
        ret
    }
}

} // verus!
