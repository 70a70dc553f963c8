use tank_terrain::math::Vec3i;
use tank_terrain::oct_tree::bounding_box::BoundingBox;
use tank_terrain::oct_tree::data_point::DataPoint;
use tank_terrain::oct_tree::octree::Octree;

// One world unit is 1000 fixed-point steps.
const U: i64 = 1000;

fn v(x: i64, y: i64, z: i64) -> Vec3i {
    Vec3i { x, y, z }
}

fn splat(c: i64) -> Vec3i {
    v(c, c, c)
}

fn diagonal_points() -> Vec<DataPoint> {
    let mut pts = Vec::new();
    let mut k: i64 = 0;
    while k <= 20 {
        pts.push(DataPoint::new(k as u32, splat(k * U)));
        k += 1;
    }
    pts
}

#[test]
fn test_basic_operation() {
    let mut octree = Octree::new(BoundingBox::new(splat(0), splat(100 * U)), 4);
    for data_point in diagonal_points() {
        octree.insert(data_point);
    }

    let mut results = vec![];

    octree.query(&BoundingBox::new(splat(0), splat(10 * U)), &mut results);
    assert_eq!(results.len(), 11);

    results.clear();
    octree.query(&BoundingBox::new(splat(0), splat(5 * U)), &mut results);
    assert_eq!(results.len(), 6);

    results.clear();
    octree.query(&BoundingBox::new(splat(0), splat(1 * U)), &mut results);
    assert_eq!(results.len(), 2);

    results.clear();
    octree.query(&BoundingBox::new(splat(0), splat(U / 10)), &mut results);
    assert_eq!(results.len(), 1);

    results.clear();
    octree.query(&BoundingBox::new(splat(0), splat(100 * U)), &mut results);
    assert_eq!(results.len(), 19);
}

#[test]
fn test_query_within_radius() {
    let mut octree = Octree::new(BoundingBox::new(splat(0), splat(100 * U)), 4);
    for data_point in diagonal_points() {
        octree.insert(data_point);
    }

    let mut results = vec![];

    octree.query_within_radius(&splat(0), 10 * U, &mut results);
    assert_eq!(results.len(), 6);

    results.clear();
    octree.query_within_radius(&splat(0), 5 * U, &mut results);
    assert_eq!(results.len(), 3);

    results.clear();
    octree.query_within_radius(&splat(0), 1 * U, &mut results);
    assert_eq!(results.len(), 1);

    results.clear();
    octree.query_within_radius(&splat(0), U / 10, &mut results);
    assert_eq!(results.len(), 1);

    results.clear();
    octree.query_within_radius(&splat(0), 100 * U, &mut results);
    assert_eq!(results.len(), 19);
}

#[test]
fn test_update_position() {
    let mut octree = Octree::new(BoundingBox::new(splat(0), splat(100 * U)), 4);
    for data_point in diagonal_points() {
        octree.insert(data_point);
    }

    // Move the first point to the end of the octree

    octree.update_position(0, splat(20 * U));

    let mut results = vec![];

    octree.query_within_radius(&splat(0), 10 * U, &mut results);
    assert_eq!(results.len(), 5);

    results.clear();
    octree.query_within_radius(&splat(0), 5 * U, &mut results);
    assert_eq!(results.len(), 2);

    results.clear();
    octree.query_within_radius(&splat(0), 1 * U, &mut results);
    assert_eq!(results.len(), 0);

    results.clear();
    octree.query_within_radius(&splat(0), U / 10, &mut results);
    assert_eq!(results.len(), 0);

    results.clear();
    octree.query_within_radius(&splat(0), 100 * U, &mut results);
    assert_eq!(results.len(), 19);

    // Move the first point back to the beginning of the octree

    octree.update_position(0, splat(0));

    results.clear();
    octree.query_within_radius(&splat(0), 10 * U, &mut results);
    assert_eq!(results.len(), 6);

    results.clear();
    octree.query_within_radius(&splat(0), 5 * U, &mut results);
    assert_eq!(results.len(), 3);

    results.clear();
    octree.query_within_radius(&splat(0), 1 * U, &mut results);
    assert_eq!(results.len(), 1);

    results.clear();
    octree.query_within_radius(&splat(0), U / 10, &mut results);
    assert_eq!(results.len(), 1);

    results.clear();
    octree.query_within_radius(&splat(0), 100 * U, &mut results);
    assert_eq!(results.len(), 19);
}

#[test]
fn test_box_helpers() {
    let bb = BoundingBox::new(v(1000, 2000, 3000), splat(500));
    assert_eq!(bb.max(), v(1500, 2500, 3500));
    assert_eq!(bb.min(), v(500, 1500, 2500));
    assert_eq!(bb.center(), v(1000, 2000, 3000));
    assert!(bb.contains_point(&v(1200, 1800, 3100)));
    assert!(!bb.contains_point(&v(1600, 2000, 3000)));
    let closest = bb.get_closest_point(&v(5000, 2000, 0));
    assert_eq!(closest, v(1500, 2000, 2500));
    assert_eq!(bb.distance_to_point(v(1000, 2000, 3000)), 0);
}

#[test]
fn test_random_point_inside_box() {
    let bb = BoundingBox::new(v(-4000, 0, 7000), splat(2500));
    for _ in 0..50 {
        let p = bb.get_random_point_within();
        assert!(bb.contains_point(&p));
    }
}
