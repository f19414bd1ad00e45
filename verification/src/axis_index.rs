//! The order index of one axis: the rank of every point along that axis,
//! kept as a permutation and its inverse and updated in place.

use crate::order::{
    insertion_rank, lemma_repositioned_consistent, lemma_split_is_rank, lemma_steps_ascend, steps_up,
    AxisOrder,
};
use crate::point2d::{axis_keys, Axis, Point2D};
use vstd::prelude::*;

verus! {

/// A sequence of machine indices as mathematical integers.
pub open spec fn as_ints(s: Seq<usize>) -> Seq<int> {
    Seq::new(s.len(), |i: int| s[i] as int)
}

/// The order index of one axis. It owns no point: the points and the axis
/// that it orders are handed to each operation that reads a key.
pub struct AxisOrderIndex {
    sorted: Vec<usize>,
    positions: Vec<usize>,
}

impl View for AxisOrderIndex {
    type V = AxisOrder;

    closed spec fn view(&self) -> AxisOrder {
        AxisOrder { sorted: as_ints(self.sorted@), positions: as_ints(self.positions@) }
    }
}

impl AxisOrderIndex {
    /// Creates the index of no points.
    pub fn new() -> (index: Self)
        ensures
            index@ == AxisOrder::empty(),
    {
        let index = Self { sorted: Vec::new(), positions: Vec::new() };
        assert(index@.positions =~= Seq::<int>::empty());
        index
    }

    /// Creates the index of no points, with room for `n`.
    pub fn with_capacity(n: usize) -> (index: Self)
        ensures
            index@ == AxisOrder::empty(),
    {
        let index = Self { sorted: Vec::with_capacity(n), positions: Vec::with_capacity(n) };
        assert(index@.positions =~= Seq::<int>::empty());
        index
    }

    /// Takes the two arrays as they are given. Nothing is checked here:
    /// `is_consistent` tells whether they order a set of points.
    pub fn from_parts(sorted: Vec<usize>, positions: Vec<usize>) -> (index: Self)
        ensures
            index@.sorted == as_ints(sorted@),
            index@.positions == as_ints(positions@),
    {
        Self { sorted, positions }
    }

    /// The stable indices by increasing rank.
    pub fn sorted(&self) -> (ranks: &[usize])
        ensures
            as_ints(ranks@) == self@.sorted,
    {
        self.sorted.as_slice()
    }

    /// The rank of each stable index.
    pub fn positions(&self) -> (ranks: &[usize])
        ensures
            as_ints(ranks@) == self@.positions,
    {
        self.positions.as_slice()
    }

    /// Tells by direct inspection whether the index is a consistent order
    /// of `points` along `axis`.
    pub fn is_consistent(&self, points: &Vec<Point2D>, axis: Axis) -> (ok: bool)
        ensures
            ok == self@.consistent(axis_keys(points@, axis)),
    {
        let ghost keys = axis_keys(points@, axis);
        let n = points.len();
        if self.sorted.len() != n || self.positions.len() != n {
            return false;
        }
        let mut r: usize = 0;
        while r < n
            invariant
                r <= n,
                n == points.len(),
                n == self.sorted.len(),
                n == self.positions.len(),
                keys == axis_keys(points@, axis),
                forall|k: int|
                    0 <= k < r ==> 0 <= #[trigger] self@.sorted[k] < n
                        && self@.positions[self@.sorted[k]] == k,
                forall|k: int|
                    0 <= k < r ==> 0 <= #[trigger] self@.positions[k] < n
                        && self@.sorted[self@.positions[k]] == k,
                forall|k: int| 0 < k < r ==> #[trigger] steps_up(self@, keys, k),
            decreases n - r,
        {
            let index = self.sorted[r];
            assert(self@.sorted[r as int] == index);
            if index >= n {
                return false;
            }
            if self.positions[index] != r {
                return false;
            }
            let rank = self.positions[r];
            assert(self@.positions[r as int] == rank);
            if rank >= n {
                return false;
            }
            if self.sorted[rank] != r {
                return false;
            }
            if r > 0 {
                let previous = self.sorted[r - 1];
                assert(self@.sorted[r - 1] == previous);
                if points[previous].coordinate(axis) > points[index].coordinate(axis) {
                    return false;
                }
            }
            r += 1;
        }
        proof {
            assert forall|a: int, b: int|
                #![trigger self@.sorted[a], self@.sorted[b]]
                0 <= a <= b < self@.sorted.len() implies keys[self@.sorted[a]]
                <= keys[self@.sorted[b]] by {
                lemma_steps_ascend(self@, keys, a, b);
            }
        }
        true
    }

    /// Finds the rank at which a point whose coordinate is `value` would
    /// enter the order: behind every point whose coordinate is at most
    /// `value`, so behind its equals.
    pub fn find_insertion_rank(&self, points: &Vec<Point2D>, axis: Axis, value: i64) -> (rank:
        usize)
        requires
            self@.consistent(axis_keys(points@, axis)),
        ensures
            rank == insertion_rank(axis_keys(points@, axis), value as int),
            rank <= points@.len(),
            self@.splits_at(axis_keys(points@, axis), value as int, rank as int),
    {
        let ghost keys = axis_keys(points@, axis);
        let mut low: usize = 0;
        let mut high: usize = self.sorted.len();
        while low < high
            invariant
                self@.consistent(keys),
                keys == axis_keys(points@, axis),
                low <= high <= self.sorted.len(),
                forall|r: int| 0 <= r < low ==> keys[#[trigger] self@.sorted[r]] <= value,
                forall|r: int|
                    high <= r < self@.sorted.len() ==> value < keys[#[trigger] self@.sorted[r]],
            decreases high - low,
        {
            let middle = low + (high - low) / 2;
            let index = self.sorted[middle];
            assert(self@.sorted[middle as int] == index);
            let key = points[index].coordinate(axis) as i64;
            if key <= value {
                low = middle + 1;
            } else {
                high = middle;
            }
        }
        proof {
            lemma_split_is_rank(self@, keys, value as int, low as int);
        }
        low
    }

    /// Enters a new point at `rank`. Its stable index is the number of
    /// points that the index held before.
    pub fn insert(&mut self, rank: usize)
        requires
            old(self)@.is_permutation(),
            rank <= old(self)@.sorted.len(),
        ensures
            final(self)@ == old(self)@.inserted(rank as int),
    {
        let n = self.sorted.len();
        let ghost before = self.positions@;
        assert forall|j: int| 0 <= j < n implies #[trigger] before[j] < n by {
            assert(self@.positions[j] == before[j]);
        }
        let mut i: usize = 0;
        while i < n
            invariant
                i <= n,
                n == before.len(),
                n == self.positions.len(),
                self.sorted == old(self).sorted,
                n == self.sorted.len(),
                forall|j: int| 0 <= j < n ==> #[trigger] before[j] < n,
                forall|j: int|
                    0 <= j < i ==> #[trigger] self.positions[j] == (if before[j] >= rank {
                        before[j] + 1
                    } else {
                        before[j] as int
                    }),
                forall|j: int| i <= j < n ==> #[trigger] self.positions[j] == before[j],
            decreases n - i,
        {
            let e = self.positions[i];
            if e >= rank {
                self.positions[i] = e + 1;
            }
            i += 1;
        }
        self.positions.push(rank);
        self.sorted.insert(rank, n);
        proof {
            assert(self@.sorted =~= old(self)@.inserted(rank as int).sorted);
            assert(self@.positions =~= old(self)@.inserted(rank as int).positions);
        }
    }

    /// Takes the point at rank `from` out and puts it back at rank `to`;
    /// touches only the ranks between the two.
    fn move_rank(&mut self, from: usize, to: usize)
        requires
            old(self)@.is_permutation(),
            from < old(self)@.sorted.len(),
            to < old(self)@.sorted.len(),
        ensures
            final(self)@ == old(self)@.moved(from as int, to as int),
    {
        let ghost before = self@;
        let n = self.sorted.len();
        let index = self.sorted[from];
        let mut r: usize = from;
        if from < to {
            while r < to
                invariant
                    from <= r <= to < n,
                    n == before.sorted.len(),
                    n == self.sorted.len(),
                    n == self.positions.len(),
                    before.is_permutation(),
                    forall|k: int|
                        0 <= k < n ==> #[trigger] self.sorted[k] == (if from <= k < r {
                            before.sorted[k + 1]
                        } else {
                            before.sorted[k]
                        }),
                    forall|i: int|
                        0 <= i < n ==> #[trigger] self.positions[i] == (if from
                            < before.positions[i] <= r {
                            before.positions[i] - 1
                        } else {
                            before.positions[i]
                        }),
                decreases to - r,
            {
                let next = self.sorted[r + 1];
                self.sorted[r] = next;
                self.positions[next] = r;
                r += 1;
            }
        } else {
            while r > to
                invariant
                    to <= r <= from < n,
                    n == before.sorted.len(),
                    n == self.sorted.len(),
                    n == self.positions.len(),
                    before.is_permutation(),
                    forall|k: int|
                        0 <= k < n ==> #[trigger] self.sorted[k] == (if r < k <= from {
                            before.sorted[k - 1]
                        } else {
                            before.sorted[k]
                        }),
                    forall|i: int|
                        0 <= i < n ==> #[trigger] self.positions[i] == (if r
                            <= before.positions[i] < from {
                            before.positions[i] + 1
                        } else {
                            before.positions[i]
                        }),
                decreases r - to,
            {
                let next = self.sorted[r - 1];
                self.sorted[r] = next;
                self.positions[next] = r;
                r -= 1;
            }
        }
        assert(before.positions[before.sorted[from as int]] == from);
        self.sorted[to] = index;
        self.positions[index] = to;
        proof {
            let after = before.moved(from as int, to as int);
            assert(self@.sorted =~= after.sorted);
            assert(self@.positions =~= after.positions);
        }
    }

    /// Moves the point `stable_index` to the rank that its new coordinate
    /// `new_value` gives it. Call this before the point itself is changed:
    /// `points` still holds the old coordinate.
    pub fn reposition(
        &mut self,
        points: &Vec<Point2D>,
        axis: Axis,
        stable_index: usize,
        new_value: i32,
    )
        requires
            old(self)@.consistent(axis_keys(points@, axis)),
            stable_index < points.len(),
        ensures
            final(self)@ == old(self)@.repositioned(
                axis_keys(points@, axis),
                stable_index as int,
                new_value as int,
            ),
            final(self)@.consistent(
                axis_keys(points@, axis).update(stable_index as int, new_value as int),
            ),
    {
        let ghost keys = axis_keys(points@, axis);
        proof {
            lemma_repositioned_consistent(self@, keys, stable_index as int, new_value as int);
        }
        let from = self.positions[stable_index];
        let candidate = self.find_insertion_rank(points, axis, new_value as i64);
        let to = if candidate > from {
            candidate - 1
        } else {
            candidate
        };
        self.move_rank(from, to);
    }
}

} // verus!
