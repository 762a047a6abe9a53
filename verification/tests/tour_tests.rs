use tsp::{
    anneal, nearest_neighbor, neighboring_tour, random_route, route_from_picks, simulated_annealing,
    solve, Path, Point, PointSet, Route, Search, SolveMethod, SCALE,
};

fn eight() -> Vec<Point> {
    vec![
        Point::new("p1", 0, 0),
        Point::new("p2", 100, 100),
        Point::new("p3", 50, 200),
        Point::new("p4", 60, 40),
        Point::new("p5", 420, 69),
        Point::new("p6", 1, 2),
        Point::new("p7", 9, 80),
        Point::new("p8", 6, 70),
    ]
}

fn names_of(points: &Vec<Point>) -> Vec<String> {
    points.iter().map(|p| p.get_name()).collect()
}

fn sorted(names: &[String]) -> Vec<String> {
    let mut copy = names.to_vec();
    copy.sort();
    copy
}

#[test]
fn nearest_neighbor_test() {
    let p1 = Point::new("p1", 0, 0);
    let p2 = Point::new("p2", 100, 100);
    let p3 = Point::new("p3", 50, 200);

    let set = PointSet::new(vec![p1, p2, p3]).unwrap();

    let result = nearest_neighbor(set);

    assert_eq!(*result.ordered_point_names(), vec!("p1", "p2", "p3", "p1"));
    assert_eq!((result.distance() as f64 / SCALE as f64).floor(), 459.0); // we get the idea
}

#[test]
fn get_result_string_test() {
    let test_result = Route::new(
        30 * SCALE as u128,
        vec![String::from("p1"), String::from("p2"), String::from("p3")],
    );

    let result = test_result.get_result_string();

    assert_eq!(result, "distance: 30\np1 -> p2 -> p3");
}

#[test]
fn random_route_creates_new_route() {
    let points = eight();

    let result = random_route(points);

    assert_eq!(result.len(), 8);
    assert_eq!(result.get(0).unwrap().get_name(), "p1");
    assert_eq!(result.get(7).unwrap().get_name(), "p8");
}

#[test]
fn neighboring_route_creates_new_route() {
    let points = vec![
        Point::new("p1", 0, 0),
        Point::new("p2", 100, 100),
        Point::new("p3", 50, 200),
        Point::new("p4", 60, 40),
        Point::new("p5", 420, 69),
        Point::new("p6", 1, 2),
        Point::new("p7", 9, 80),
        Point::new("p8", 6, 70),
    ];

    let result = neighboring_tour(points, 1, 4);

    assert_eq!(result.len(), 8);
    assert_eq!(result.get(0).unwrap().get_name(), "p1");
    assert_eq!(result.get(1).unwrap().get_name(), "p5");
    assert_eq!(result.get(2).unwrap().get_name(), "p4");
    assert_eq!(result.get(3).unwrap().get_name(), "p3");
    assert_eq!(result.get(4).unwrap().get_name(), "p2");
    assert_eq!(result.get(5).unwrap().get_name(), "p6");
    assert_eq!(result.get(6).unwrap().get_name(), "p7");
    assert_eq!(result.get(7).unwrap().get_name(), "p8");
}

#[test]
fn nearest_neighbor_exact_distance() {
    let set = PointSet::new(vec![
        Point::new("p1", 0, 0),
        Point::new("p2", 100, 100),
        Point::new("p3", 50, 200),
    ])
    .unwrap();
    let route = nearest_neighbor(set);
    assert_eq!(route.distance(), 459379);
    assert_eq!(route.get_result_string(), "distance: 459.379\np1 -> p2 -> p3 -> p1");
}

#[test]
fn nearest_neighbor_on_eight_points() {
    let route = nearest_neighbor(PointSet::new(eight()).unwrap());
    assert_eq!(
        *route.ordered_point_names(),
        vec!["p1", "p6", "p8", "p7", "p4", "p2", "p3", "p5", "p1"]
    );
    assert_eq!(route.distance(), 1147724);
}

#[test]
fn nearest_neighbor_is_deterministic() {
    let first = nearest_neighbor(PointSet::new(eight()).unwrap());
    let second = nearest_neighbor(PointSet::new(eight()).unwrap());
    assert_eq!(first.ordered_point_names(), second.ordered_point_names());
    assert_eq!(first.distance(), second.distance());
}

#[test]
fn nearest_neighbor_visits_every_point_once() {
    let route = nearest_neighbor(PointSet::new(eight()).unwrap());
    let names = route.ordered_point_names();
    assert_eq!(names.len(), 9);
    assert_eq!(names[0], "p1");
    assert_eq!(names[8], "p1");
    assert_eq!(sorted(&names[..8]), sorted(&names_of(&eight())));
}

#[test]
fn nearest_neighbor_takes_the_earliest_of_equally_near_points() {
    let set = PointSet::new(vec![
        Point::new("start", 0, 0),
        Point::new("north", 0, 5),
        Point::new("east", 5, 0),
        Point::new("south", 0, -5),
    ])
    .unwrap();
    let route = nearest_neighbor(set);
    assert_eq!(
        *route.ordered_point_names(),
        vec!["start", "north", "east", "south", "start"]
    );
    assert_eq!(route.distance(), 24142);
}

#[test]
fn nearest_neighbor_of_one_point_stays_there() {
    let set = PointSet::new(vec![Point::new("only", 3, 3)]).unwrap();
    let route = nearest_neighbor(set);
    assert_eq!(*route.ordered_point_names(), vec!["only", "only"]);
    assert_eq!(route.distance(), 0);
}

#[test]
fn nearest_neighbor_of_two_points_goes_there_and_back() {
    let set = PointSet::new(vec![Point::new("a", 0, 0), Point::new("b", 3, 4)]).unwrap();
    let route = nearest_neighbor(set);
    assert_eq!(*route.ordered_point_names(), vec!["a", "b", "a"]);
    assert_eq!(route.distance(), 10000);
}

#[test]
fn solve_with_nearest_neighbor() {
    let route = solve(PointSet::new(eight()).unwrap(), SolveMethod::NearestNeighbor);
    assert_eq!(route.distance(), 1147724);
    assert_eq!(route.ordered_point_names().len(), 9);
}

#[test]
fn solve_with_simulated_annealing() {
    let route = solve(PointSet::new(eight()).unwrap(), SolveMethod::SimulatedAnnealing);
    let names = route.ordered_point_names();
    assert_eq!(names.len(), 8);
    assert_eq!(names[0], "p1");
    assert_eq!(names[7], "p8");
    assert_eq!(sorted(names), sorted(&names_of(&eight())));
}

#[test]
fn simulated_annealing_of_small_sets_keeps_their_order() {
    let one = simulated_annealing(PointSet::new(vec![Point::new("a", 1, 1)]).unwrap());
    assert_eq!(*one.ordered_point_names(), vec!["a"]);
    assert_eq!(one.distance(), 0);
    let two = simulated_annealing(
        PointSet::new(vec![Point::new("a", 1, 1), Point::new("b", 5, 5)]).unwrap(),
    );
    assert_eq!(*two.ordered_point_names(), vec!["a", "b"]);
    assert_eq!(two.distance(), 0);
}

#[test]
fn path_distance_takes_every_other_edge() {
    assert_eq!(Path::new(eight()).distance(), 1009808);
    let mut points = eight();
    points.truncate(5);
    assert_eq!(Path::new(points).distance(), 598661);
    let mut points = eight();
    points.truncate(4);
    assert_eq!(Path::new(points).distance(), 206155);
    let mut points = eight();
    points.truncate(3);
    assert_eq!(Path::new(points).distance(), 206155);
}

#[test]
fn path_distance_of_short_paths_is_zero() {
    assert_eq!(Path::new(Vec::new()).distance(), 0);
    assert_eq!(Path::new(vec![Point::new("a", 0, 0)]).distance(), 0);
    assert_eq!(
        Path::new(vec![Point::new("a", 0, 0), Point::new("b", 9, 9)]).distance(),
        0
    );
}

#[test]
fn path_hands_its_points_back() {
    let path = Path::new(eight());
    assert_eq!(names_of(path.points()), names_of(&eight()));
    assert_eq!(names_of(&path.into_points()), names_of(&eight()));
}

#[test]
fn route_from_path_reports_names_and_stepped_length() {
    let route = Route::from_path(Path::new(eight()));
    assert_eq!(*route.ordered_point_names(), names_of(&eight()));
    assert_eq!(route.distance(), 1009808);
}

#[test]
fn neighboring_tour_leaves_an_empty_segment_alone() {
    let result = neighboring_tour(eight(), 4, 1);
    assert_eq!(names_of(&result), names_of(&eight()));
    let result = neighboring_tour(eight(), 3, 3);
    assert_eq!(names_of(&result), names_of(&eight()));
    let result = neighboring_tour(eight(), 9, 12);
    assert_eq!(names_of(&result), names_of(&eight()));
}

#[test]
fn neighboring_tour_can_reverse_everything() {
    let result = neighboring_tour(eight(), 0, 7);
    assert_eq!(
        names_of(&result),
        vec!["p8", "p7", "p6", "p5", "p4", "p3", "p2", "p1"]
    );
}

#[test]
fn neighboring_tour_twice_gives_the_tour_back() {
    let once = neighboring_tour(eight(), 2, 6);
    assert_eq!(
        names_of(&once),
        vec!["p1", "p2", "p7", "p6", "p5", "p4", "p3", "p8"]
    );
    let twice = neighboring_tour(once, 2, 6);
    assert_eq!(names_of(&twice), names_of(&eight()));
}

#[test]
fn route_from_picks_follows_the_picks() {
    let same = route_from_picks(eight(), &vec![0, 0, 0, 0, 0, 0]);
    assert_eq!(names_of(&same), names_of(&eight()));
    let back = route_from_picks(eight(), &vec![5, 4, 3, 2, 1, 0]);
    assert_eq!(
        names_of(&back),
        vec!["p1", "p7", "p6", "p5", "p4", "p3", "p2", "p8"]
    );
    let mixed = route_from_picks(eight(), &vec![2, 0, 3, 1, 1, 0]);
    assert_eq!(
        names_of(&mixed),
        vec!["p1", "p4", "p2", "p7", "p5", "p6", "p3", "p8"]
    );
}

#[test]
fn route_from_picks_leaves_short_tours_alone() {
    let two = vec![Point::new("a", 0, 0), Point::new("b", 1, 1)];
    assert_eq!(names_of(&route_from_picks(two, &Vec::new())), vec!["a", "b"]);
    let none: Vec<Point> = Vec::new();
    assert!(route_from_picks(none, &Vec::new()).is_empty());
    let three = vec![
        Point::new("a", 0, 0),
        Point::new("b", 1, 1),
        Point::new("c", 2, 2),
    ];
    assert_eq!(names_of(&route_from_picks(three, &vec![0])), vec!["a", "b", "c"]);
}

#[test]
fn random_route_keeps_every_point() {
    for _ in 0..20 {
        let result = random_route(eight());
        assert_eq!(result.len(), 8);
        assert_eq!(result[0].get_name(), "p1");
        assert_eq!(result[7].get_name(), "p8");
        assert_eq!(sorted(&names_of(&result)), sorted(&names_of(&eight())));
    }
}

#[test]
fn random_route_does_not_always_give_the_same_order() {
    let mut moved = false;
    for _ in 0..200 {
        if names_of(&random_route(eight())) != names_of(&eight()) {
            moved = true;
        }
    }
    assert!(moved);
}

#[test]
fn random_route_of_short_tours_changes_nothing() {
    assert!(random_route(Vec::new()).is_empty());
    assert_eq!(names_of(&random_route(vec![Point::new("a", 0, 0)])), vec!["a"]);
    let two = vec![Point::new("a", 0, 0), Point::new("b", 1, 1)];
    assert_eq!(names_of(&random_route(two)), vec!["a", "b"]);
    let three = vec![
        Point::new("a", 0, 0),
        Point::new("b", 1, 1),
        Point::new("c", 2, 2),
    ];
    assert_eq!(names_of(&random_route(three)), vec!["a", "b", "c"]);
}

#[test]
fn search_step_keeps_the_new_tour_and_the_lowest_cost() {
    let mut search = Search::new(Path::new(eight()));
    assert_eq!(search.start_distance(), 1009808);
    assert_eq!(search.best_distance(), 1009808);

    search.step(1, 4);
    assert_eq!(
        names_of(search.path().points()),
        vec!["p1", "p5", "p4", "p3", "p2", "p6", "p7", "p8"]
    );
    assert_eq!(search.path().distance(), 237393);
    assert_eq!(search.best_distance(), 237393);
    assert_eq!(search.start_distance(), 1009808);

    search.step(2, 6);
    assert_eq!(search.path().distance(), 245786);
    assert_eq!(search.best_distance(), 237393);
    assert_eq!(search.start_distance(), 1009808);

    let route = search.into_route();
    assert_eq!(route.distance(), 245786);
    assert_eq!(
        *route.ordered_point_names(),
        vec!["p1", "p5", "p7", "p6", "p2", "p3", "p4", "p8"]
    );
}

#[test]
fn anneal_without_time_ends_where_it_starts() {
    let set = PointSet::new(eight()).unwrap();
    let search = anneal(&set, 0);
    assert_eq!(search.best_distance(), search.start_distance());
    assert_eq!(search.path().distance(), search.start_distance());
    let names = names_of(search.path().points());
    assert_eq!(names[0], "p1");
    assert_eq!(names[7], "p8");
    assert_eq!(sorted(&names), sorted(&names_of(&eight())));
}

#[test]
fn anneal_never_reports_a_best_above_the_first_cost() {
    let set = PointSet::new(eight()).unwrap();
    for _ in 0..2 {
        let search = anneal(&set, 1);
        assert!(search.best_distance() <= search.start_distance());
        assert!(search.best_distance() <= search.path().distance());
        let names = names_of(search.path().points());
        assert_eq!(names[0], "p1");
        assert_eq!(names[7], "p8");
        assert_eq!(sorted(&names), sorted(&names_of(&eight())));
    }
}

#[test]
fn anneal_moves_the_tour() {
    let set = PointSet::new(eight()).unwrap();
    let search = anneal(&set, 1);
    assert!(search.best_distance() < 1009808);
}
