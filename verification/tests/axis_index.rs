use pointcloud::axis_index::AxisOrderIndex;
use pointcloud::point2d::{Axis, Point2D};

fn points_of(xs: &[i32]) -> Vec<Point2D> {
    xs.iter().map(|x| Point2D::new(*x, -*x)).collect()
}

#[test]
fn an_empty_index_ranks_every_value_first() {
    let index = AxisOrderIndex::new();
    let points: Vec<Point2D> = Vec::new();
    assert!(index.sorted().is_empty());
    assert!(index.positions().is_empty());
    assert!(index.is_consistent(&points, Axis::X));
    assert!(index.is_consistent(&points, Axis::Y));
    for value in [i64::MIN, -1, 0, 1, 250, i64::MAX] {
        assert_eq!(index.find_insertion_rank(&points, Axis::X, value), 0);
        assert_eq!(index.find_insertion_rank(&points, Axis::Y, value), 0);
    }
    let roomy = AxisOrderIndex::with_capacity(16);
    assert!(roomy.sorted().is_empty());
    assert!(roomy.positions().is_empty());
    assert_eq!(roomy.find_insertion_rank(&points, Axis::X, 3), 0);
}

#[test]
fn find_insertion_rank_is_an_upper_bound_search() {
    let points = points_of(&[10, 20, 20, 20, 30]);
    let index = AxisOrderIndex::from_parts(vec![0, 1, 2, 3, 4], vec![0, 1, 2, 3, 4]);
    assert!(index.is_consistent(&points, Axis::X));
    assert_eq!(index.find_insertion_rank(&points, Axis::X, 9), 0);
    assert_eq!(index.find_insertion_rank(&points, Axis::X, 10), 1);
    assert_eq!(index.find_insertion_rank(&points, Axis::X, 19), 1);
    assert_eq!(index.find_insertion_rank(&points, Axis::X, 20), 4);
    assert_eq!(index.find_insertion_rank(&points, Axis::X, 21), 4);
    assert_eq!(index.find_insertion_rank(&points, Axis::X, 30), 5);
    assert_eq!(index.find_insertion_rank(&points, Axis::X, 31), 5);
}

#[test]
fn find_insertion_rank_reads_the_axis_that_is_named() {
    // along Y the same points descend by stable index
    let points = points_of(&[10, 20, 30]);
    let index = AxisOrderIndex::from_parts(vec![2, 1, 0], vec![2, 1, 0]);
    assert!(index.is_consistent(&points, Axis::Y));
    assert!(!index.is_consistent(&points, Axis::X));
    assert_eq!(index.find_insertion_rank(&points, Axis::Y, -31), 0);
    assert_eq!(index.find_insertion_rank(&points, Axis::Y, -30), 1);
    assert_eq!(index.find_insertion_rank(&points, Axis::Y, -15), 2);
    assert_eq!(index.find_insertion_rank(&points, Axis::Y, -10), 3);
}

#[test]
fn insert_shifts_the_later_ranks() {
    let mut index = AxisOrderIndex::new();
    index.insert(0);
    assert_eq!(index.sorted(), vec![0]);
    assert_eq!(index.positions(), vec![0]);
    index.insert(0);
    assert_eq!(index.sorted(), vec![1, 0]);
    assert_eq!(index.positions(), vec![1, 0]);
    index.insert(1);
    assert_eq!(index.sorted(), vec![1, 2, 0]);
    assert_eq!(index.positions(), vec![2, 0, 1]);
    index.insert(3);
    assert_eq!(index.sorted(), vec![1, 2, 0, 3]);
    assert_eq!(index.positions(), vec![2, 0, 1, 3]);
    index.insert(2);
    assert_eq!(index.sorted(), vec![1, 2, 4, 0, 3]);
    assert_eq!(index.positions(), vec![3, 0, 1, 4, 2]);
}

#[test]
fn reposition_moves_up_behind_the_equals() {
    let points = points_of(&[10, 20, 20, 30, 40]);
    let mut index = AxisOrderIndex::from_parts(vec![0, 1, 2, 3, 4], vec![0, 1, 2, 3, 4]);
    // 10 becomes 20: behind both twenties
    index.reposition(&points, Axis::X, 0, 20);
    assert_eq!(index.sorted(), vec![1, 2, 0, 3, 4]);
    assert_eq!(index.positions(), vec![2, 0, 1, 3, 4]);
    let moved = points_of(&[20, 20, 20, 30, 40]);
    assert!(index.is_consistent(&moved, Axis::X));
}

#[test]
fn reposition_moves_up_to_the_last_rank() {
    let points = points_of(&[10, 20, 30]);
    let mut index = AxisOrderIndex::from_parts(vec![0, 1, 2], vec![0, 1, 2]);
    index.reposition(&points, Axis::X, 0, 1000);
    assert_eq!(index.sorted(), vec![1, 2, 0]);
    assert_eq!(index.positions(), vec![2, 0, 1]);
    // and the same value once more: it already is the last
    let moved = points_of(&[1000, 20, 30]);
    index.reposition(&moved, Axis::X, 0, 1000);
    assert_eq!(index.sorted(), vec![1, 2, 0]);
    assert_eq!(index.positions(), vec![2, 0, 1]);
}

#[test]
fn reposition_moves_down_behind_the_equals() {
    let points = points_of(&[10, 20, 20, 30, 40]);
    let mut index = AxisOrderIndex::from_parts(vec![0, 1, 2, 3, 4], vec![0, 1, 2, 3, 4]);
    // 40 becomes 20: behind both twenties, before 30
    index.reposition(&points, Axis::X, 4, 20);
    assert_eq!(index.sorted(), vec![0, 1, 2, 4, 3]);
    assert_eq!(index.positions(), vec![0, 1, 2, 4, 3]);
    // 30 becomes 5: first
    let moved = points_of(&[10, 20, 20, 30, 20]);
    index.reposition(&moved, Axis::X, 3, 5);
    assert_eq!(index.sorted(), vec![3, 0, 1, 2, 4]);
    assert_eq!(index.positions(), vec![1, 2, 3, 0, 4]);
    let last = points_of(&[10, 20, 20, 5, 20]);
    assert!(index.is_consistent(&last, Axis::X));
}

#[test]
fn reposition_to_a_value_between_the_neighbours_changes_nothing() {
    let points = points_of(&[10, 20, 30]);
    let mut index = AxisOrderIndex::from_parts(vec![0, 1, 2], vec![0, 1, 2]);
    index.reposition(&points, Axis::X, 1, 15);
    assert_eq!(index.sorted(), vec![0, 1, 2]);
    assert_eq!(index.positions(), vec![0, 1, 2]);
    index.reposition(&points, Axis::X, 1, 29);
    assert_eq!(index.sorted(), vec![0, 1, 2]);
    index.reposition(&points, Axis::X, 0, -100);
    assert_eq!(index.sorted(), vec![0, 1, 2]);
    index.reposition(&points, Axis::X, 2, 100);
    assert_eq!(index.sorted(), vec![0, 1, 2]);
    assert_eq!(index.positions(), vec![0, 1, 2]);
}

#[test]
fn reposition_of_a_point_among_its_equals_puts_it_last_of_them() {
    let points = points_of(&[7, 7, 7]);
    let mut index = AxisOrderIndex::from_parts(vec![0, 1, 2], vec![0, 1, 2]);
    index.reposition(&points, Axis::X, 0, 7);
    assert_eq!(index.sorted(), vec![1, 2, 0]);
    assert_eq!(index.positions(), vec![2, 0, 1]);
    assert!(index.is_consistent(&points, Axis::X));
}

#[test]
fn is_consistent_tells_what_is_wrong() {
    let points = points_of(&[10, 20, 30]);
    assert!(AxisOrderIndex::from_parts(vec![0, 1, 2], vec![0, 1, 2]).is_consistent(&points, Axis::X));
    // lengths
    assert!(!AxisOrderIndex::from_parts(vec![0, 1], vec![0, 1, 2]).is_consistent(&points, Axis::X));
    assert!(!AxisOrderIndex::from_parts(vec![0, 1, 2], vec![0, 1]).is_consistent(&points, Axis::X));
    assert!(!AxisOrderIndex::from_parts(vec![0, 1, 2, 3], vec![0, 1, 2, 3])
        .is_consistent(&points, Axis::X));
    // not inverse
    assert!(!AxisOrderIndex::from_parts(vec![0, 1, 2], vec![0, 2, 1]).is_consistent(&points, Axis::X));
    assert!(!AxisOrderIndex::from_parts(vec![0, 0, 2], vec![0, 1, 2]).is_consistent(&points, Axis::X));
    assert!(!AxisOrderIndex::from_parts(vec![0, 1, 2], vec![0, 1, 1]).is_consistent(&points, Axis::X));
    // out of range
    assert!(!AxisOrderIndex::from_parts(vec![0, 1, 5], vec![0, 1, 2]).is_consistent(&points, Axis::X));
    assert!(!AxisOrderIndex::from_parts(vec![0, 1, 2], vec![9, 1, 2]).is_consistent(&points, Axis::X));
    // inverse, but not ascending
    assert!(!AxisOrderIndex::from_parts(vec![1, 0, 2], vec![1, 0, 2]).is_consistent(&points, Axis::X));
    assert!(!AxisOrderIndex::from_parts(vec![0, 2, 1], vec![0, 2, 1]).is_consistent(&points, Axis::X));
}
