//! Heuristics for the travelling salesman problem on named points of the
//! integer plane: a greedy nearest-neighbour tour and a randomised
//! segment-reversal search.
//!
//! Lengths are fixed-point numbers: a distance is kept in thousandths of a
//! coordinate unit, rounded down, so every length in this crate is an integer
//! and every comparison is exact.

pub mod permutation;
pub mod sqrt;
pub mod point;
pub mod point_set;
pub mod text;
pub mod route;
pub mod nearest;
pub mod reversal;
pub mod shuffle;
pub mod anneal;
pub mod solver;
pub mod parse;

pub use anneal::{anneal, simulated_annealing, Search};
pub use nearest::nearest_neighbor;
pub use parse::get_point_from_string;
pub use point::{Point, DISTANCE_LIMIT, SCALE};
pub use point_set::{calculate_distance_table, PointSet, PointSetError};
pub use reversal::neighboring_tour;
pub use route::{Path, Route};
pub use shuffle::{random_route, route_from_picks};
pub use solver::{solve, SolveMethod};
pub use sqrt::isqrt;
