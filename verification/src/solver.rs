//! Choosing a heuristic and running it.

use crate::anneal::{is_search_outcome, simulated_annealing, SearchView};
use crate::nearest::{is_greedy_order, greedy_order, nearest_neighbor, nearest_neighbor_route};
use crate::point_set::PointSet;
use crate::route::{route_of_path, Route};
use vstd::prelude::*;

verus! {

/// The heuristic to solve with.
#[derive(Debug, Clone, Copy)]
pub enum SolveMethod {
    /// The randomised search.
    SimulatedAnnealing,
    /// The greedy tour.
    NearestNeighbor,
}

/// Builds a route through the points of `set` with the heuristic
/// `method`.
pub fn solve(set: PointSet, method: SolveMethod) -> (route: Route)
    requires
        set.wf(),
    ensures
        method is NearestNeighbor ==> is_greedy_order(set@, greedy_order(set@)) && route@
            == nearest_neighbor_route(set@),
        method is SimulatedAnnealing ==> exists|outcome: SearchView| #[trigger]
            is_search_outcome(set@, outcome) && route@ == route_of_path(outcome.path),
{
    match method {
        SolveMethod::NearestNeighbor => nearest_neighbor(set),
        SolveMethod::SimulatedAnnealing => simulated_annealing(set),
    }
}

} // verus!
