use pointcloud::cloud_view::{MAX_DISTANCE, MAX_DISTANCE_SQ};
use pointcloud::point2d::Point2D;
use pointcloud::pointcloud2d::PointCloud2D;

fn cloud_of(points: &[(i32, i32)]) -> PointCloud2D {
    let mut cloud = PointCloud2D::new();
    for (x, y) in points {
        cloud.push(Point2D::new(*x, *y));
    }
    cloud
}

#[test]
fn the_radius_is_a_quarter_of_a_metre() {
    assert_eq!(MAX_DISTANCE, 250);
    assert_eq!(MAX_DISTANCE_SQ, 62_500);
    assert_eq!(MAX_DISTANCE_SQ, (MAX_DISTANCE as u128) * (MAX_DISTANCE as u128));
}

#[test]
fn an_empty_cloud_has_no_hit() {
    let cloud = PointCloud2D::new();
    for p in [(0, 0), (250, 0), (i32::MIN, i32::MAX), (i32::MAX, i32::MIN)] {
        assert_eq!(cloud.test_world_point(&Point2D::new(p.0, p.1)), Ok(None));
    }
    assert_eq!(PointCloud2D::with_capacity(4).test_world_point(&Point2D::new(1, 1)), Ok(None));
}

#[test]
fn a_point_on_the_circle_is_no_hit() {
    let cloud = cloud_of(&[(0, 0)]);
    assert_eq!(cloud.test_world_point(&Point2D::new(250, 0)), Ok(None));
    assert_eq!(cloud.test_world_point(&Point2D::new(-250, 0)), Ok(None));
    assert_eq!(cloud.test_world_point(&Point2D::new(0, 250)), Ok(None));
    assert_eq!(cloud.test_world_point(&Point2D::new(0, -250)), Ok(None));
    // 150^2 + 200^2 = 250^2
    assert_eq!(cloud.test_world_point(&Point2D::new(150, 200)), Ok(None));
    assert_eq!(cloud.test_world_point(&Point2D::new(-200, -150)), Ok(None));
}

#[test]
fn a_point_just_inside_the_circle_is_a_hit() {
    let cloud = cloud_of(&[(0, 0)]);
    assert_eq!(cloud.test_world_point(&Point2D::new(249, 0)), Ok(Some(0)));
    assert_eq!(cloud.test_world_point(&Point2D::new(-249, 0)), Ok(Some(0)));
    assert_eq!(cloud.test_world_point(&Point2D::new(0, 249)), Ok(Some(0)));
    assert_eq!(cloud.test_world_point(&Point2D::new(0, -249)), Ok(Some(0)));
    // 150^2 + 199^2 < 250^2
    assert_eq!(cloud.test_world_point(&Point2D::new(150, 199)), Ok(Some(0)));
    assert_eq!(cloud.test_world_point(&Point2D::new(0, 0)), Ok(Some(0)));
}

#[test]
fn a_point_inside_the_square_but_outside_the_circle_is_no_hit() {
    let cloud = cloud_of(&[(0, 0)]);
    assert_eq!(cloud.test_world_point(&Point2D::new(249, 249)), Ok(None));
    assert_eq!(cloud.test_world_point(&Point2D::new(-200, 200)), Ok(None));
    assert_eq!(cloud.test_world_point(&Point2D::new(177, 177)), Ok(None));
    assert_eq!(cloud.test_world_point(&Point2D::new(176, 176)), Ok(Some(0)));
}

#[test]
fn the_nearest_point_is_found() {
    let cloud = cloud_of(&[(0, 0), (100, 0), (200, 0), (0, 100), (100, 100)]);
    assert_eq!(cloud.test_world_point(&Point2D::new(90, 10)), Ok(Some(1)));
    assert_eq!(cloud.test_world_point(&Point2D::new(10, 90)), Ok(Some(3)));
    assert_eq!(cloud.test_world_point(&Point2D::new(60, 60)), Ok(Some(4)));
    assert_eq!(cloud.test_world_point(&Point2D::new(440, 0)), Ok(Some(2)));
    assert_eq!(cloud.test_world_point(&Point2D::new(450, 0)), Ok(None));
    assert_eq!(cloud.test_world_point(&Point2D::new(-300, -300)), Ok(None));
}

#[test]
fn of_two_points_as_near_the_one_of_lower_rank_on_the_walked_axis_is_found() {
    // the two windows hold as many points, so X is walked: the point to the left is met first
    let cloud = cloud_of(&[(100, 0), (-100, 0)]);
    assert_eq!(cloud.sorted_x(), vec![1, 0]);
    assert_eq!(cloud.test_world_point(&Point2D::new(0, 0)), Ok(Some(1)));
    let cloud = cloud_of(&[(-100, 0), (100, 0)]);
    assert_eq!(cloud.test_world_point(&Point2D::new(0, 0)), Ok(Some(0)));

    // equal along X: the rank goes by the order of insertion
    let cloud = cloud_of(&[(0, 100), (0, -100)]);
    assert_eq!(cloud.sorted_x(), vec![0, 1]);
    assert_eq!(cloud.test_world_point(&Point2D::new(0, 0)), Ok(Some(0)));
}

#[test]
fn the_axis_with_the_narrower_window_is_walked() {
    // Three points share the X window of the query, two its Y window: Y is walked,
    // and of the two points as near the lower one along Y is met first.
    let cloud = cloud_of(&[(-100, 100), (100, -100), (0, 1000)]);
    let p = Point2D::new(0, 0);
    assert_eq!(cloud.sorted_x(), vec![0, 2, 1]);
    assert_eq!(cloud.sorted_y(), vec![1, 0, 2]);
    assert_eq!(cloud.test_world_point(&p), Ok(Some(1)));

    // The mirror image: two points share the X window, three the Y window: X is walked.
    let cloud = cloud_of(&[(100, -100), (-100, 100), (1000, 0)]);
    assert_eq!(cloud.sorted_x(), vec![1, 0, 2]);
    assert_eq!(cloud.sorted_y(), vec![0, 2, 1]);
    assert_eq!(cloud.test_world_point(&p), Ok(Some(1)));
}

#[test]
fn hit_test_works_at_the_edges_of_the_grid() {
    let cloud = cloud_of(&[
        (i32::MIN, i32::MIN),
        (i32::MAX, i32::MAX),
        (i32::MIN, i32::MAX),
        (i32::MAX, i32::MIN),
    ]);
    assert_eq!(cloud.test_world_point(&Point2D::new(i32::MIN, i32::MIN)), Ok(Some(0)));
    assert_eq!(cloud.test_world_point(&Point2D::new(i32::MAX, i32::MAX)), Ok(Some(1)));
    assert_eq!(cloud.test_world_point(&Point2D::new(i32::MIN, i32::MAX)), Ok(Some(2)));
    assert_eq!(cloud.test_world_point(&Point2D::new(i32::MAX, i32::MIN)), Ok(Some(3)));
    assert_eq!(cloud.test_world_point(&Point2D::new(i32::MIN + 249, i32::MIN)), Ok(Some(0)));
    assert_eq!(cloud.test_world_point(&Point2D::new(i32::MIN + 250, i32::MIN)), Ok(None));
    assert_eq!(cloud.test_world_point(&Point2D::new(i32::MAX, i32::MAX - 249)), Ok(Some(1)));
    assert_eq!(cloud.test_world_point(&Point2D::new(i32::MAX - 250, i32::MAX)), Ok(None));
    assert_eq!(cloud.test_world_point(&Point2D::new(0, 0)), Ok(None));
}

#[test]
fn a_moved_point_is_found_where_it_went() {
    let mut cloud = cloud_of(&[(0, 0), (1000, 0), (2000, 0)]);
    assert_eq!(cloud.test_world_point(&Point2D::new(5000, 5000)), Ok(None));
    assert_eq!(cloud.update_point(1, Point2D::new(5000, 5100)), Ok(()));
    assert_eq!(cloud.test_world_point(&Point2D::new(5000, 5000)), Ok(Some(1)));
    assert_eq!(cloud.test_world_point(&Point2D::new(1000, 0)), Ok(None));
    assert_eq!(cloud.translate_point(1, -4000, -5100), Ok(()));
    assert_eq!(cloud.points()[1], Point2D::new(1000, 0));
    assert_eq!(cloud.test_world_point(&Point2D::new(1000, 0)), Ok(Some(1)));
    assert_eq!(cloud.sorted_x(), vec![0, 1, 2]);
    assert_eq!(cloud.sorted_y(), vec![0, 2, 1]);
}

#[test]
fn translate_point_adds_the_movement() {
    let mut cloud = cloud_of(&[(0, 0), (10, 10)]);
    assert_eq!(cloud.translate_point(0, 25, -5), Ok(()));
    assert_eq!(cloud.points()[0], Point2D::new(25, -5));
    assert_eq!(cloud.sorted_x(), vec![1, 0]);
    assert_eq!(cloud.sorted_y(), vec![0, 1]);
    assert_eq!(cloud.translate_point(1, i32::MAX - 10, i32::MIN + 1), Ok(()));
    assert_eq!(cloud.points()[1], Point2D::new(i32::MAX, i32::MIN + 11));
    assert_eq!(cloud.sorted_x(), vec![0, 1]);
    assert_eq!(cloud.sorted_y(), vec![1, 0]);
}
