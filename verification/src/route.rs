//! Paths through points, their lengths, and the route that a solver hands
//! back.

use crate::point::{distance, names_of, texts_of, views_of, Point, PointView, DISTANCE_LIMIT};
use crate::text::{distance_text, joined, push_distance, push_joined};
use vstd::prelude::*;
use vstd::string::StringExecFns;

verus! {

/// The sum of the distances between each point of the sequence and the
/// next one: the length of the walk through all of them in order.
pub open spec fn chain_length(points: Seq<PointView>) -> nat
    decreases points.len(),
{
    if points.len() < 2 {
        0
    } else {
        chain_length(points.drop_last()) + distance(
            points[points.len() - 2],
            points[points.len() - 1],
        )
    }
}

/// The sum of the first `steps` strides of two positions: the distances
/// from position 0 to 2, from 2 to 4, and so on.
pub open spec fn stepped_sum(points: Seq<PointView>, steps: nat) -> nat
    decreases steps,
{
    if steps == 0 {
        0
    } else {
        stepped_sum(points, (steps - 1) as nat) + distance(
            points[2 * steps - 2],
            points[2 * steps as int],
        )
    }
}

/// The cost of a path in the search: the sum of the distances between the
/// points at positions 0, 2, 4, ... and the points two positions further,
/// as far as the path reaches. A path of fewer than three points costs
/// nothing.
pub open spec fn stepped_length(points: Seq<PointView>) -> nat {
    if points.len() < 3 {
        0
    } else {
        stepped_sum(points, ((points.len() - 1) / 2) as nat)
    }
}

/// An ordered sequence of points: a candidate tour.
pub struct Path {
    points: Vec<Point>,
}

impl View for Path {
    type V = Seq<PointView>;

    closed spec fn view(&self) -> Seq<PointView> {
        views_of(self.points@)
    }
}

impl Path {
    /// The path through `points`, in the order given.
    pub fn new(points: Vec<Point>) -> (path: Path)
        ensures
            path@ == views_of(points@),
    {
        Path { points }
    }

    /// The points of the path, in order.
    pub fn points(&self) -> (points: &Vec<Point>)
        ensures
            views_of(points@) == self@,
    {
        &self.points
    }

    /// Gives the points of the path back.
    pub fn into_points(self) -> (points: Vec<Point>)
        ensures
            views_of(points@) == self@,
    {
        self.points
    }

    /// The cost of the path: its stepped length.
    pub fn distance(&self) -> (total: u128)
        ensures
            total as nat == stepped_length(self@),
    {
        let n: usize = self.points.len();
        if n < 3 {
            return 0;
        }
        let mut total: u128 = 0;
        let mut i: usize = 0;
        let ghost mut steps: nat = 0;
        while i < n - 2
            invariant
                n == self.points.len(),
                n >= 3,
                i == 2 * steps,
                i <= n - 1,
                total as nat == stepped_sum(self@, steps),
                total <= steps * DISTANCE_LIMIT,
            decreases n - i,
        {
            let d: u64 = self.points[i].dist(&self.points[i + 2]);
            assert((steps + 1) * DISTANCE_LIMIT <= u128::MAX) by (nonlinear_arith)
                requires
                    steps <= usize::MAX,
            ;
            assert(total + d <= (steps + 1) * DISTANCE_LIMIT) by (nonlinear_arith)
                requires
                    total <= steps * DISTANCE_LIMIT,
                    d < DISTANCE_LIMIT,
            ;
            total = total + d as u128;
            i = i + 2;
            proof {
                steps = steps + 1;
            }
        }
        assert(steps == (n - 1) / 2);
        total
    }
}

/// What a solver hands back: the names of the points in the order of the
/// visit, and the length that the solver reports for it.
pub struct Route {
    distance: u128,
    ordered_point_names: Vec<String>,
}

/// The mathematical model of a route: its length as a natural number and
/// its names as sequences of characters.
pub ghost struct RouteView {
    pub distance: nat,
    pub names: Seq<Seq<char>>,
}

impl View for Route {
    type V = RouteView;

    closed spec fn view(&self) -> RouteView {
        RouteView { distance: self.distance as nat, names: texts_of(self.ordered_point_names@) }
    }
}

/// The route that reports a path: the names of its points in order, with
/// its stepped length.
pub open spec fn route_of_path(path: Seq<PointView>) -> RouteView {
    RouteView { distance: stepped_length(path), names: names_of(path) }
}

/// What a route reads like: the word `distance`, a colon, a space and the
/// length in units on the first line; on the second the names, in order,
/// with an arrow between each two.
pub open spec fn result_text(route: RouteView) -> Seq<char> {
    "distance: "@ + distance_text(route.distance) + "\n"@ + joined(route.names, " -> "@)
}

impl Route {
    /// The route of length `distance`, in thousandths of a coordinate unit,
    /// through the points called `ordered_point_names`.
    pub fn new(distance: u128, ordered_point_names: Vec<String>) -> (route: Route)
        ensures
            route@ == (RouteView {
                distance: distance as nat,
                names: texts_of(ordered_point_names@),
            }),
    {
        Route { distance, ordered_point_names }
    }

    /// The route that reports `path`.
    pub fn from_path(path: Path) -> (route: Route)
        ensures
            route@ == route_of_path(path@),
    {
        let mut names: Vec<String> = Vec::new();
        let n: usize = path.points.len();
        let mut i: usize = 0;
        while i < n
            invariant
                n == path.points.len(),
                i <= n,
                names.len() == i,
                forall|k: int| 0 <= k < i ==> (#[trigger] names[k])@ == path@[k].name,
            decreases n - i,
        {
            names.push(path.points[i].get_name());
            i += 1;
        }
        assert(texts_of(names@) =~= names_of(path@));
        Route { distance: path.distance(), ordered_point_names: names }
    }

    /// The route as text, in two lines: the length in units, then the
    /// names.
    pub fn get_result_string(&self) -> (result: String)
        ensures
            result@ == result_text(self@),
    {
        let mut result: String = String::new();
        result.append("distance: ");
        push_distance(&mut result, self.distance);
        result.append("\n");
        push_joined(&mut result, &self.ordered_point_names, " -> ");
        proof {
            assert(result@ =~= result_text(self@));
        }
        result
    }

    /// The length of the route, in thousandths of a coordinate unit.
    pub fn distance(&self) -> (distance: u128)
        ensures
            distance as nat == self@.distance,
    {
        self.distance
    }

    /// The names of the points, in the order of the visit.
    pub fn ordered_point_names(&self) -> (names: &Vec<String>)
        ensures
            texts_of(names@) == self@.names,
    {
        &self.ordered_point_names
    }
}

} // verus!
