//! The randomised search: start from a random tour and reverse random
//! segments of it for as long as the budget lasts, remembering the lowest
//! cost seen.

use crate::point::{views_of, Point, PointView};
use crate::point_set::PointSet;
use crate::reversal::{
    lemma_reverse_segment_keeps_ends, lemma_reverse_segment_keeps_items, neighboring_tour,
    reverse_segment,
};
use crate::route::{route_of_path, stepped_length, Path, Route};
use crate::shuffle::{is_inner_shuffle, random_index, random_route};
use rand::rngs::ThreadRng;
use std::time::Duration;
use std::time::Instant;
use vstd::prelude::*;

verus! {

/// For how many seconds `simulated_annealing` searches.
pub const SEARCH_SECONDS: u64 = 1;

/// A moment of the monotonic clock of `std`. Nothing is known of what is
/// inside.
#[verifier::external_type_specification]
#[verifier::external_body]
pub struct ExInstant(Instant);

/// `Instant::now` reads the monotonic clock. Nothing is claimed of the
/// moment it returns.
pub assume_specification[ Instant::now ]() -> (now: Instant);

/// `Instant::elapsed` measures the time since the moment was taken.
/// Nothing is claimed of the span it returns.
pub assume_specification[ Instant::elapsed ](start: &Instant) -> (spent: Duration);

/// `Duration::as_secs` gives the whole seconds of a span. Nothing is
/// claimed of the number it returns.
pub assume_specification[ Duration::as_secs ](span: &Duration) -> (secs: u64);

/// The state of a search: the tour it holds, what the tour it started from
/// cost, and the lowest cost of any tour it has held.
pub struct Search {
    path: Path,
    start_distance: u128,
    best_distance: u128,
}

/// The mathematical model of a search.
pub ghost struct SearchView {
    pub path: Seq<PointView>,
    pub start_distance: nat,
    pub best_distance: nat,
}

impl View for Search {
    type V = SearchView;

    closed spec fn view(&self) -> SearchView {
        SearchView {
            path: self.path@,
            start_distance: self.start_distance as nat,
            best_distance: self.best_distance as nat,
        }
    }
}

/// The search that has just started from the tour `path`.
pub open spec fn started(path: Seq<PointView>) -> SearchView {
    SearchView {
        path,
        start_distance: stepped_length(path),
        best_distance: stepped_length(path),
    }
}

/// The search after the move that reverses the tour between `start` and
/// `end`: the new tour is kept whatever it costs, and the best distance is
/// lowered where the new tour costs less.
pub open spec fn after_move(search: SearchView, start: int, end: int) -> SearchView {
    let path: Seq<PointView> = reverse_segment(search.path, start, end);
    SearchView {
        path,
        start_distance: search.start_distance,
        best_distance: if stepped_length(path) < search.best_distance {
            stepped_length(path)
        } else {
            search.best_distance
        },
    }
}

/// The search after each of `moves` in turn.
pub open spec fn after_moves(search: SearchView, moves: Seq<(int, int)>) -> SearchView
    decreases moves.len(),
{
    if moves.len() == 0 {
        search
    } else {
        after_move(after_moves(search, moves.drop_last()), moves.last().0, moves.last().1)
    }
}

/// Every move reverses a segment whose two ends are drawn from the
/// positions strictly between the first and the last of `len`.
pub open spec fn inner_moves(len: nat, moves: Seq<(int, int)>) -> bool {
    forall|k: int|
        0 <= k < moves.len() ==> 1 <= (#[trigger] moves[k]).0 < len - 1 && 1 <= moves[k].1 < len
            - 1
}

/// The best distance is no more than what the first tour cost, and no more
/// than what the tour held now costs.
pub open spec fn best_is_lowest(search: SearchView) -> bool {
    &&& search.best_distance <= search.start_distance
    &&& search.best_distance <= stepped_length(search.path)
}

/// `outcome` is what a search through `points` can end with: it started
/// from a tour that kept the first and the last of `points` in place, and
/// made some number of moves inside that tour.
pub open spec fn is_search_outcome(points: Seq<PointView>, outcome: SearchView) -> bool {
    exists|first_tour: Seq<PointView>, moves: Seq<(int, int)>|
        is_inner_shuffle(points, first_tour) && inner_moves(points.len(), moves) && outcome
            == #[trigger] after_moves(started(first_tour), moves)
}

/// A move never raises the best distance, and leaves the best distance no
/// higher than the cost of the tour it made.
pub proof fn lemma_move_never_raises_best(search: SearchView, start: int, end: int)
    ensures
        after_move(search, start, end).best_distance <= search.best_distance,
        after_move(search, start, end).start_distance == search.start_distance,
        best_is_lowest(search) ==> best_is_lowest(after_move(search, start, end)),
{
}

/// However many moves a search makes, its best distance never rises: it
/// stays at or below what it was before them, and so at or below the cost
/// of the tour that the search started from.
pub proof fn lemma_best_never_rises(search: SearchView, moves: Seq<(int, int)>)
    ensures
        after_moves(search, moves).best_distance <= search.best_distance,
        after_moves(search, moves).start_distance == search.start_distance,
        best_is_lowest(search) ==> best_is_lowest(after_moves(search, moves)),
        best_is_lowest(after_moves(started(search.path), moves)),
    decreases moves.len(),
{
    if moves.len() > 0 {
        lemma_best_never_rises(search, moves.drop_last());
        lemma_best_never_rises(started(search.path), moves.drop_last());
    }
}

/// Moves inside a tour keep its points, its first point and its last.
pub proof fn lemma_moves_keep_tour(search: SearchView, moves: Seq<(int, int)>)
    requires
        inner_moves(search.path.len(), moves),
    ensures
        is_inner_shuffle(search.path, after_moves(search, moves).path),
    decreases moves.len(),
{
    if moves.len() > 0 {
        let earlier: Seq<(int, int)> = moves.drop_last();
        assert forall|k: int| 0 <= k < earlier.len() implies 1 <= (#[trigger] earlier[k]).0
            < search.path.len() - 1 && 1 <= earlier[k].1 < search.path.len() - 1 by {
            assert(earlier[k] == moves[k]);
        }
        lemma_moves_keep_tour(search, earlier);
        let before: Seq<PointView> = after_moves(search, earlier).path;
        let start: int = moves.last().0;
        let end: int = moves.last().1;
        assert(1 <= moves[moves.len() - 1].0 < search.path.len() - 1);
        lemma_reverse_segment_keeps_items(before, start, end);
        lemma_reverse_segment_keeps_ends(before, start, end);
    }
}

/// What a search through `points` ends with is a tour through all of
/// `points` that starts and ends where they do, and its best distance is
/// at most the cost of the tour that the search started from.
pub proof fn lemma_search_outcome(points: Seq<PointView>, outcome: SearchView)
    requires
        is_search_outcome(points, outcome),
    ensures
        is_inner_shuffle(points, outcome.path),
        best_is_lowest(outcome),
{
    let (first_tour, moves): (Seq<PointView>, Seq<(int, int)>) = choose|
        first_tour: Seq<PointView>,
        moves: Seq<(int, int)>,
    |
        is_inner_shuffle(points, first_tour) && inner_moves(points.len(), moves) && outcome
            == #[trigger] after_moves(started(first_tour), moves);
    lemma_best_never_rises(started(first_tour), moves);
    lemma_moves_keep_tour(started(first_tour), moves);
}

impl Search {
    /// Starts a search from the tour `path`.
    pub fn new(path: Path) -> (search: Search)
        ensures
            search@ == started(path@),
    {
        let cost: u128 = path.distance();
        Search { path, start_distance: cost, best_distance: cost }
    }

    /// Makes one move: reverses the tour between the positions `start` and
    /// `end`, both included, keeps the new tour, and lowers the best
    /// distance where the new tour costs less.
    pub fn step(&mut self, start: usize, end: usize)
        requires
            start <= end && start < old(self)@.path.len() ==> end < old(self)@.path.len(),
        ensures
            final(self)@ == after_move(old(self)@, start as int, end as int),
    {
        let tour: Vec<Point> = neighboring_tour(self.path.points().clone(), start, end);
        self.path = Path::new(tour);
        let dist: u128 = self.path.distance();
        if dist < self.best_distance {
            self.best_distance = dist;
        }
    }

    /// The tour that the search holds.
    pub fn path(&self) -> (path: &Path)
        ensures
            path@ == self@.path,
    {
        &self.path
    }

    /// What the tour that the search started from cost.
    pub fn start_distance(&self) -> (distance: u128)
        ensures
            distance as nat == self@.start_distance,
    {
        self.start_distance
    }

    /// The lowest cost of any tour that the search has held.
    pub fn best_distance(&self) -> (distance: u128)
        ensures
            distance as nat == self@.best_distance,
    {
        self.best_distance
    }

    /// The route that reports the tour that the search holds.
    pub fn into_route(self) -> (route: Route)
        ensures
            route@ == route_of_path(self@.path),
    {
        Route::from_path(self.path)
    }
}

/// Searches through the points of `set`: starts from a random tour and
/// keeps reversing random segments inside it, until the clock shows that
/// `budget_secs` whole seconds have passed since the start, or `u64::MAX`
/// moves have been made. The clock is read before each move, so a move
/// that has begun is finished. A set of fewer than three points has
/// nothing to move, and the search ends where it starts.
pub fn anneal(set: &PointSet, budget_secs: u64) -> (search: Search)
    requires
        set.wf(),
    ensures
        is_search_outcome(set@, search@),
{
    let n: usize = set.len();
    let held: &Vec<Point> = set.points();
    let points: Vec<Point> = held.clone();
    assert(points@ =~= held@);
    let first_tour: Vec<Point> = random_route(points);
    let ghost first_view: Seq<PointView> = views_of(first_tour@);
    let mut search: Search = Search::new(Path::new(first_tour));
    let ghost mut moves: Seq<(int, int)> = Seq::empty();
    assert(is_inner_shuffle(set@, first_view));
    assert(search@ == after_moves(started(first_view), moves));
    if n >= 3 {
        let clock: Instant = Instant::now();
        let mut rng: ThreadRng = rand::thread_rng();
        let mut made: u64 = 0;
        while made < u64::MAX && clock.elapsed().as_secs() < budget_secs
            invariant
                n >= 3,
                n == set@.len(),
                is_inner_shuffle(set@, first_view),
                inner_moves(n as nat, moves),
                search@ == after_moves(started(first_view), moves),
            decreases u64::MAX - made,
        {
            let start: usize = random_index(&mut rng, 1, n - 1);
            let end: usize = random_index(&mut rng, 1, n - 1);
            proof {
                lemma_moves_keep_tour(started(first_view), moves);
            }
            search.step(start, end);
            proof {
                let longer: Seq<(int, int)> = moves.push((start as int, end as int));
                assert(longer.drop_last() =~= moves);
                moves = longer;
            }
            made += 1;
        }
    }
    assert(search@ == after_moves(started(first_view), moves));
    search
}

/// Runs the search for `SEARCH_SECONDS` and reports the tour it ends with.
pub fn simulated_annealing(set: PointSet) -> (route: Route)
    requires
        set.wf(),
    ensures
        exists|outcome: SearchView| #[trigger]
            is_search_outcome(set@, outcome) && route@ == route_of_path(outcome.path),
{
    let search: Search = anneal(&set, SEARCH_SECONDS);
    search.into_route()
}

} // verus!
