//! The mathematics of one axis order: a permutation of the stable indices
//! that reads the keys in ascending order, together with its inverse, and
//! what insertion and repositioning do to the pair.

use vstd::prelude::*;
use vstd::relations::injective_on;
use vstd::set_lib::*;

verus! {

/// The stable indices whose key is at most `value`.
pub open spec fn at_most(keys: Seq<int>, value: int) -> Set<int> {
    Set::new(|i: int| 0 <= i < keys.len() && keys[i] <= value)
}

/// The rank at which a new key `value` enters the order of `keys`: the
/// number of keys that are at most `value`. A key equal to existing ones
/// therefore ranks after all of them.
pub open spec fn insertion_rank(keys: Seq<int>, value: int) -> nat {
    at_most(keys, value).len()
}

/// The order of one axis: `sorted` maps a rank to the stable index that
/// holds it, `positions` maps a stable index to its rank.
pub struct AxisOrder {
    pub sorted: Seq<int>,
    pub positions: Seq<int>,
}

impl AxisOrder {
    /// The order of no points.
    pub open spec fn empty() -> AxisOrder {
        AxisOrder { sorted: Seq::empty(), positions: Seq::empty() }
    }

    /// `sorted` and `positions` have one length, hold ranks and stable
    /// indices below it, and undo each other.
    pub open spec fn is_permutation(self) -> bool {
        &&& self.positions.len() == self.sorted.len()
        &&& forall|r: int|
            0 <= r < self.sorted.len() ==> 0 <= #[trigger] self.sorted[r] < self.sorted.len()
                && self.positions[self.sorted[r]] == r
        &&& forall|i: int|
            0 <= i < self.positions.len() ==> 0 <= #[trigger] self.positions[i]
                < self.sorted.len() && self.sorted[self.positions[i]] == i
    }

    /// Read by increasing rank, the keys never decrease.
    pub open spec fn ascending(self, keys: Seq<int>) -> bool {
        forall|r: int, s: int|
            #![trigger self.sorted[r], self.sorted[s]]
            0 <= r <= s < self.sorted.len() ==> keys[self.sorted[r]] <= keys[self.sorted[s]]
    }

    /// The order is a valid order of `keys`: one rank per key, the two
    /// arrays inverse to each other, the keys ascending by rank.
    pub open spec fn consistent(self, keys: Seq<int>) -> bool {
        &&& self.sorted.len() == keys.len()
        &&& self.is_permutation()
        &&& self.ascending(keys)
    }

    /// Ranks below `rank` hold keys at most `value`, all others hold
    /// greater keys.
    pub open spec fn splits_at(self, keys: Seq<int>, value: int, rank: int) -> bool {
        &&& 0 <= rank <= self.sorted.len()
        &&& forall|r: int| 0 <= r < rank ==> keys[#[trigger] self.sorted[r]] <= value
        &&& forall|r: int| rank <= r < self.sorted.len() ==> value < keys[#[trigger] self.sorted[r]]
    }

    /// The order after a new point, whose stable index is the old length,
    /// has entered at `rank`: later ranks move up by one.
    pub open spec fn inserted(self, rank: int) -> AxisOrder {
        AxisOrder {
            sorted: self.sorted.insert(rank, self.sorted.len() as int),
            positions: Seq::new(
                self.positions.len(),
                |i: int|
                    if self.positions[i] >= rank {
                        self.positions[i] + 1
                    } else {
                        self.positions[i]
                    },
            ).push(rank),
        }
    }

    /// The order after the point at rank `from` has been taken out and put
    /// back at rank `to`: the ranks between the two close the gap.
    pub open spec fn moved(self, from: int, to: int) -> AxisOrder {
        AxisOrder {
            sorted: self.sorted.remove(from).insert(to, self.sorted[from]),
            positions: Seq::new(
                self.positions.len(),
                |i: int|
                    {
                        let e = self.positions[i];
                        if e == from {
                            to
                        } else if from < e <= to {
                            e - 1
                        } else if to <= e < from {
                            e + 1
                        } else {
                            e
                        }
                    },
            ),
        }
    }

    /// The rank that the point `index` takes when its key becomes `value`.
    /// The candidate is the insertion rank of `value` among all keys as
    /// they are, the moving point's old key included; a candidate above its
    /// old rank has counted the point itself and is lowered by one.
    pub open spec fn destination(self, keys: Seq<int>, index: int, value: int) -> int {
        let candidate = insertion_rank(keys, value) as int;
        if candidate > self.positions[index] {
            candidate - 1
        } else {
            candidate
        }
    }

    /// The order after the key of point `index` has become `value`.
    pub open spec fn repositioned(self, keys: Seq<int>, index: int, value: int) -> AxisOrder {
        self.moved(self.positions[index], self.destination(keys, index, value))
    }
}

/// An insertion rank never exceeds the number of keys.
pub proof fn lemma_rank_in_bounds(keys: Seq<int>, value: int)
    ensures
        at_most(keys, value).finite(),
        0 <= insertion_rank(keys, value) <= keys.len(),
{
    let all = set_int_range(0, keys.len() as int);
    lemma_int_range(0, keys.len() as int);
    lemma_len_subset(at_most(keys, value), all);
}

/// Among no keys every value ranks first.
pub proof fn lemma_rank_of_empty(value: int)
    ensures
        insertion_rank(Seq::<int>::empty(), value) == 0,
{
    lemma_rank_in_bounds(Seq::<int>::empty(), value);
}

/// One more key raises the rank of the values that it does not exceed, by
/// one, and of no others.
pub proof fn lemma_rank_of_push(keys: Seq<int>, key: int, value: int)
    ensures
        insertion_rank(keys.push(key), value) == insertion_rank(keys, value) + (if key <= value {
            1nat
        } else {
            0nat
        }),
{
    let n = keys.len() as int;
    lemma_rank_in_bounds(keys, value);
    if key <= value {
        assert(at_most(keys.push(key), value) =~= at_most(keys, value).insert(n));
    } else {
        assert(at_most(keys.push(key), value) =~= at_most(keys, value));
    }
}

/// A greater value never ranks lower.
pub proof fn lemma_rank_monotone(keys: Seq<int>, low: int, high: int)
    requires
        low <= high,
    ensures
        insertion_rank(keys, low) <= insertion_rank(keys, high),
{
    lemma_rank_in_bounds(keys, high);
    lemma_len_subset(at_most(keys, low), at_most(keys, high));
}

/// In a consistent order, the rank that separates the keys at most `value`
/// from the greater ones is the insertion rank of `value`.
pub proof fn lemma_split_is_rank(order: AxisOrder, keys: Seq<int>, value: int, rank: int)
    requires
        order.consistent(keys),
        order.splits_at(keys, value, rank),
    ensures
        insertion_rank(keys, value) == rank,
{
    let below = set_int_range(0, rank);
    let held = |r: int| order.sorted[r];
    lemma_int_range(0, rank);
    assert(injective_on(held, below));
    assert(below.map(held) =~= at_most(keys, value)) by {
        assert forall|i: int| at_most(keys, value).contains(i) implies below.map(held).contains(
            i,
        ) by {
            let r = order.positions[i];
            assert(below.contains(r) && held(r) == i);
        }
    }
    lemma_map_size(below, at_most(keys, value), held);
}

/// In a consistent order, the insertion rank of `value` separates the keys
/// at most `value` from the greater ones.
pub proof fn lemma_rank_splits(order: AxisOrder, keys: Seq<int>, value: int)
    requires
        order.consistent(keys),
    ensures
        order.splits_at(keys, value, insertion_rank(keys, value) as int),
{
    let rank = lemma_split_below(order, keys, value, keys.len() as int);
    lemma_split_is_rank(order, keys, value, rank);
}

/// Searches downwards from `bound` for the rank that separates the keys
/// at most `value` from the greater ones.
proof fn lemma_split_below(order: AxisOrder, keys: Seq<int>, value: int, bound: int) -> (rank: int)
    requires
        order.consistent(keys),
        0 <= bound <= keys.len(),
        forall|r: int| bound <= r < keys.len() ==> value < keys[#[trigger] order.sorted[r]],
    ensures
        order.splits_at(keys, value, rank),
    decreases bound,
{
    if bound == 0 {
        0
    } else if keys[order.sorted[bound - 1]] <= value {
        bound
    } else {
        lemma_split_below(order, keys, value, bound - 1)
    }
}

/// The key at rank `r` is at least the key a rank before it.
pub open spec fn steps_up(order: AxisOrder, keys: Seq<int>, r: int) -> bool {
    keys[order.sorted[r - 1]] <= keys[order.sorted[r]]
}

/// Keys that never step down from one rank to the next are ascending.
pub proof fn lemma_steps_ascend(order: AxisOrder, keys: Seq<int>, r: int, s: int)
    requires
        forall|k: int| 0 < k < order.sorted.len() ==> #[trigger] steps_up(order, keys, k),
        0 <= r <= s < order.sorted.len(),
    ensures
        keys[order.sorted[r]] <= keys[order.sorted[s]],
    decreases s - r,
{
    if r < s {
        lemma_steps_ascend(order, keys, r, s - 1);
        assert(steps_up(order, keys, s));
    }
}

/// Every stable index holds exactly one rank.
pub proof fn lemma_each_index_once(order: AxisOrder)
    requires
        order.is_permutation(),
    ensures
        order.sorted.no_duplicates(),
        forall|i: int| 0 <= i < order.sorted.len() ==> order.sorted.contains(i),
{
    assert forall|i: int| 0 <= i < order.sorted.len() implies order.sorted.contains(i) by {
        assert(order.sorted[order.positions[i]] == i);
    }
}

/// Insertion at any rank keeps the two arrays inverse to each other.
pub proof fn lemma_inserted_is_permutation(order: AxisOrder, rank: int)
    requires
        order.is_permutation(),
        0 <= rank <= order.sorted.len(),
    ensures
        order.inserted(rank).is_permutation(),
{
}

/// A point that enters at the insertion rank of its key leaves the order
/// consistent.
pub proof fn lemma_inserted_consistent(order: AxisOrder, keys: Seq<int>, key: int)
    requires
        order.consistent(keys),
    ensures
        order.inserted(insertion_rank(keys, key) as int).consistent(keys.push(key)),
{
    lemma_rank_splits(order, keys, key);
    lemma_inserted_is_permutation(order, insertion_rank(keys, key) as int);
}

/// Taking a point out of its rank and putting it back at another keeps
/// the two arrays inverse to each other.
pub proof fn lemma_moved_is_permutation(order: AxisOrder, from: int, to: int)
    requires
        order.is_permutation(),
        0 <= from < order.sorted.len(),
        0 <= to < order.sorted.len(),
    ensures
        order.moved(from, to).is_permutation(),
        order.moved(from, to).sorted.len() == order.sorted.len(),
{
}

/// Repositioning a point for its new key leaves the order consistent with
/// the changed keys, and the point ranks last among the keys that are at
/// most its new one.
pub proof fn lemma_repositioned_consistent(
    order: AxisOrder,
    keys: Seq<int>,
    index: int,
    value: int,
)
    requires
        order.consistent(keys),
        0 <= index < keys.len(),
    ensures
        0 <= order.destination(keys, index, value) < keys.len(),
        order.repositioned(keys, index, value).consistent(keys.update(index, value)),
        order.repositioned(keys, index, value).positions[index] + 1 == insertion_rank(
            keys.update(index, value),
            value,
        ),
{
    let from = order.positions[index];
    let to = order.destination(keys, index, value);
    let after = order.repositioned(keys, index, value);
    let changed = keys.update(index, value);
    lemma_rank_splits(order, keys, value);
    lemma_moved_is_permutation(order, from, to);
    lemma_split_is_rank(after, changed, value, to + 1);
}

} // verus!
