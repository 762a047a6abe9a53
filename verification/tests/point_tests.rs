use tsp::{calculate_distance_table, isqrt, Point, PointSet, PointSetError, DISTANCE_LIMIT, SCALE};

fn eight_points() -> Vec<Point> {
    vec![
        Point::new("p1", 0, 0),
        Point::new("p2", 100, 100),
        Point::new("p3", 50, 200),
        Point::new("p4", 60, 40),
        Point::new("p5", 420, 69),
        Point::new("p6", 1, 2),
        Point::new("p7", 9, 80),
        Point::new("p8", 6, 70),
    ]
}

#[test]
fn dist_calculates_correctly() {
    let p1 = Point::new("p1", 549, 990);
    let p2 = Point::new("p2", 220, 28);

    let result = (p1.dist(&p2) as f64 / SCALE as f64).floor();

    assert_eq!(result, 1016.0);
}

#[test]
fn calculate_distance_table_correctly_builds_table() {
    let p1 = Point::new("p1", 0, 0);
    let p2 = Point::new("p2", 100, 100);
    let p3 = Point::new("p3", 50, 200);

    let table = calculate_distance_table(&vec![p1, p2, p3]);

    let expected_table: Vec<Vec<f32>> = vec![
        vec![0.0, 141.421, 206.155],
        vec![141.421, 0.0, 111.803],
        vec![206.155, 111.803, 0.0],
    ];

    assert_eq!(table.len(), 3);
    for x in 0..table.len() {
        assert_eq!(table.get(x).unwrap().len(), 3);
        for y in 0..table.get(x).unwrap().len() {
            let actual = *table.get(x).unwrap().get(y).unwrap() as f32 / SCALE as f32;
            let expected = *expected_table.get(x).unwrap().get(y).unwrap();

            let result = (actual - expected).abs();

            assert!(result < 0.001)
        }
    }
}

#[test]
fn isqrt_rounds_down() {
    assert_eq!(isqrt(0), 0);
    assert_eq!(isqrt(1), 1);
    assert_eq!(isqrt(2), 1);
    assert_eq!(isqrt(15), 3);
    assert_eq!(isqrt(16), 4);
    assert_eq!(isqrt(17), 4);
    assert_eq!(isqrt(1_000_000), 1000);
    assert_eq!(isqrt(999_999), 999);
    assert_eq!(isqrt(u128::MAX), u64::MAX);
}

#[test]
fn dist_exact_values() {
    let origin = Point::new("o", 0, 0);
    assert_eq!(origin.dist(&Point::new("a", 3, 4)), 5000);
    assert_eq!(origin.dist(&Point::new("b", 1, 1)), 1414);
    assert_eq!(origin.dist(&Point::new("c", 1, 0)), 1000);
    assert_eq!(origin.dist(&Point::new("d", -3, -4)), 5000);
    assert_eq!(Point::new("p1", 549, 990).dist(&Point::new("p2", 220, 28)), 1016703);
}

#[test]
fn dist_is_symmetric_and_zero_to_self() {
    let points = eight_points();
    for a in &points {
        assert_eq!(a.dist(a), 0);
        for b in &points {
            assert_eq!(a.dist(b), b.dist(a));
        }
    }
}

#[test]
fn dist_is_zero_only_between_points_in_the_same_place() {
    let a = Point::new("a", 7, -3);
    let twin = Point::new("twin", 7, -3);
    let near = Point::new("near", 7, -2);
    assert_eq!(a.dist(&twin), 0);
    assert_eq!(a.dist(&near), 1000);
}

#[test]
fn dist_at_the_corners_of_the_grid() {
    let low = Point::new("low", i32::MIN, i32::MIN);
    let high = Point::new("high", i32::MAX, i32::MAX);
    let d = low.dist(&high);
    assert_eq!(d, 6074000998537);
    assert!(d < DISTANCE_LIMIT);
}

#[test]
fn point_keeps_name_and_coordinates() {
    let p = Point::new("home", -5, 12);
    assert_eq!(p.get_name(), "home");
    assert_eq!(p.x(), -5);
    assert_eq!(p.y(), 12);
    let q = p.clone();
    assert_eq!(q.get_name(), "home");
    assert_eq!(q.x(), -5);
    assert_eq!(q.y(), 12);
}

#[test]
fn distance_table_is_symmetric_with_zero_diagonal() {
    let table = calculate_distance_table(&eight_points());
    assert_eq!(table.len(), 8);
    for i in 0..8 {
        assert_eq!(table[i].len(), 8);
        assert_eq!(table[i][i], 0);
        for j in 0..8 {
            assert_eq!(table[i][j], table[j][i]);
        }
    }
    assert_eq!(table[0][1], 141421);
    assert_eq!(table[0][2], 206155);
    assert_eq!(table[1][2], 111803);
}

#[test]
fn distance_table_of_no_points_is_empty() {
    let table = calculate_distance_table(&Vec::new());
    assert!(table.is_empty());
}

#[test]
fn point_set_keeps_points_in_order() {
    let set = PointSet::new(eight_points()).unwrap();
    assert_eq!(set.len(), 8);
    assert_eq!(set.points().len(), 8);
    for i in 0..8 {
        assert_eq!(set.point(i).get_name(), format!("p{}", i + 1));
        assert_eq!(set.position(&format!("p{}", i + 1)), Some(i));
    }
    assert_eq!(set.position("p9"), None);
    assert_eq!(set.dist_at(0, 1), 141421);
    assert_eq!(set.distance_table()[1][2], 111803);
}

#[test]
fn point_set_refuses_no_points() {
    assert!(matches!(PointSet::new(Vec::new()), Err(PointSetError::Empty)));
}

#[test]
fn point_set_refuses_a_name_used_twice() {
    let points = vec![
        Point::new("a", 0, 0),
        Point::new("b", 1, 1),
        Point::new("a", 2, 2),
    ];
    assert!(matches!(PointSet::new(points), Err(PointSetError::DuplicateName)));
}

#[test]
fn point_set_takes_two_points_in_one_place() {
    let points = vec![Point::new("a", 4, 4), Point::new("b", 4, 4)];
    let set = PointSet::new(points).unwrap();
    assert_eq!(set.dist_between(String::from("a"), String::from("b")), Ok(0));
}

#[test]
fn dist_between_looks_names_up() {
    let set = PointSet::new(eight_points()).unwrap();
    assert_eq!(set.dist_between(String::from("p1"), String::from("p2")), Ok(141421));
    assert_eq!(set.dist_between(String::from("p2"), String::from("p1")), Ok(141421));
    assert_eq!(set.dist_between(String::from("p3"), String::from("p3")), Ok(0));
    assert_eq!(set.dist_between(String::from("p2"), String::from("p3")), Ok(111803));
}

#[test]
fn dist_between_reports_a_missing_point() {
    let set = PointSet::new(eight_points()).unwrap();
    assert_eq!(
        set.dist_between(String::from("p1"), String::from("nowhere")),
        Err(PointSetError::PointNotFound)
    );
    assert_eq!(
        set.dist_between(String::from("nowhere"), String::from("p1")),
        Err(PointSetError::PointNotFound)
    );
    assert_eq!(
        set.dist_between(String::from(""), String::from("")),
        Err(PointSetError::PointNotFound)
    );
}
