//! The nearest-neighbour tour: start at the first point and always go on to
//! the nearest point not yet visited.

use crate::permutation::{is_permutation, lemma_permutation_covers, lemma_reorder_keeps_items, reorder};
use crate::point::{distance, names_of, PointView, DISTANCE_LIMIT};
use crate::point_set::PointSet;
use crate::route::{chain_length, Route, RouteView};
use vstd::prelude::*;

verus! {

/// Seen from the point at position `from`, the point at position `a` is
/// to be visited rather than the one at `b`: it is nearer, or as near and
/// not later in the set.
pub open spec fn nearer(points: Seq<PointView>, from: int, a: int, b: int) -> bool {
    let to_a: nat = distance(points[from], points[a]);
    let to_b: nat = distance(points[from], points[b]);
    to_a < to_b || (to_a == to_b && a <= b)
}

/// The `k`-th stop of `order` is to be visited rather than the point at
/// position `other`, seen from the stop before it.
pub open spec fn prefers(points: Seq<PointView>, order: Seq<int>, k: int, other: int) -> bool {
    nearer(points, order[k - 1], order[k], other)
}

/// `order` is the order in which the greedy rule visits `points`: it
/// starts at the first point, visits every point once, and each stop after
/// the first is, among the points not visited before it, the nearest to
/// the stop before, the earliest in the set where several are as near.
pub open spec fn is_greedy_order(points: Seq<PointView>, order: Seq<int>) -> bool {
    &&& points.len() > 0
    &&& is_permutation(points.len(), order)
    &&& order[0] == 0
    &&& forall|k: int, m: int|
        1 <= k <= m < order.len() ==> #[trigger] prefers(points, order, k, order[m])
}

/// The order in which the greedy rule visits `points`.
pub open spec fn greedy_order(points: Seq<PointView>) -> Seq<int> {
    choose|order: Seq<int>| is_greedy_order(points, order)
}

/// The closed tour that visits `points` in `order` and returns to the
/// first point: its length is the sum of the distances between
/// consecutive stops, the way back included.
pub open spec fn closed_tour(points: Seq<PointView>, order: Seq<int>) -> RouteView {
    let stops: Seq<PointView> = reorder(points, order.push(0));
    RouteView { distance: chain_length(stops), names: names_of(stops) }
}

/// The route of the nearest-neighbour tour through `points`.
pub open spec fn nearest_neighbor_route(points: Seq<PointView>) -> RouteView {
    closed_tour(points, greedy_order(points))
}

/// Two greedy orders of the same points agree up to place `k`.
proof fn lemma_greedy_orders_agree(points: Seq<PointView>, a: Seq<int>, b: Seq<int>, k: int)
    requires
        is_greedy_order(points, a),
        is_greedy_order(points, b),
        0 <= k < points.len(),
    ensures
        forall|i: int| 0 <= i <= k ==> a[i] == b[i],
    decreases k,
{
    if k > 0 {
        lemma_greedy_orders_agree(points, a, b, k - 1);
        lemma_permutation_covers(points.len(), a);
        lemma_permutation_covers(points.len(), b);
        assert(b.contains(a[k]));
        let in_b: int = choose|m: int| 0 <= m < b.len() && b[m] == a[k];
        assert(a.contains(b[k]));
        let in_a: int = choose|m: int| 0 <= m < a.len() && a[m] == b[k];
        assert(in_b >= k) by {
            if in_b < k {
                assert(a[in_b] == b[in_b]);
            }
        }
        assert(in_a >= k) by {
            if in_a < k {
                assert(b[in_a] == a[in_a]);
            }
        }
        assert(prefers(points, b, k, b[in_b]));
        assert(prefers(points, a, k, a[in_a]));
        assert(a[k - 1] == b[k - 1]);
    }
}

/// The greedy rule leaves no choice: the same points are visited in the
/// same order every time.
pub proof fn lemma_greedy_order_unique(points: Seq<PointView>, a: Seq<int>, b: Seq<int>)
    requires
        is_greedy_order(points, a),
        is_greedy_order(points, b),
    ensures
        a == b,
{
    lemma_greedy_orders_agree(points, a, b, points.len() - 1);
    assert(a =~= b);
}

/// Two runs on the same points report the same route: whatever order the
/// greedy rule allows gives the route of the nearest-neighbour tour.
pub proof fn lemma_nearest_neighbor_deterministic(
    points: Seq<PointView>,
    a: Seq<int>,
    b: Seq<int>,
)
    requires
        is_greedy_order(points, a),
        is_greedy_order(points, b),
    ensures
        closed_tour(points, a) == closed_tour(points, b),
        closed_tour(points, a) == nearest_neighbor_route(points),
{
    lemma_greedy_order_unique(points, a, b);
    lemma_greedy_order_unique(points, a, greedy_order(points));
}

/// The tour along a greedy order names one point more than there are
/// points; it starts and ends with the name of the first point; and the
/// names before the last are those of the points, each as often as it
/// occurs among them.
pub proof fn lemma_greedy_tour_visits_all(points: Seq<PointView>, order: Seq<int>)
    requires
        is_greedy_order(points, order),
    ensures
        closed_tour(points, order).names.len() == points.len() + 1,
        closed_tour(points, order).names.first() == points[0].name,
        closed_tour(points, order).names.last() == points[0].name,
        closed_tour(points, order).names.drop_last().to_multiset() == names_of(points).to_multiset(),
{
    let names: Seq<Seq<char>> = closed_tour(points, order).names;
    lemma_reorder_keeps_items(names_of(points), order);
    assert(names.drop_last() =~= reorder(names_of(points), order));
}

/// The place in `queue` of the point to visit after the one at position
/// `current`: the first place that holds a point nearest to it.
fn nearest_in_queue(set: &PointSet, current: usize, queue: &Vec<usize>) -> (place: usize)
    requires
        set.wf(),
        current < set@.len(),
        queue.len() > 0,
        forall|q: int| 0 <= q < queue.len() ==> (#[trigger] queue[q]) < set@.len(),
    ensures
        place < queue.len(),
        forall|q: int|
            0 <= q < queue.len() ==> {
                let best: nat = distance(set@[current as int], set@[queue[place as int] as int]);
                let other: nat = distance(set@[current as int], set@[(#[trigger] queue[q]) as int]);
                best < other || (best == other && place <= q)
            },
{
    let mut place: usize = 0;
    let mut least: u64 = set.dist_at(current, queue[0]);
    let mut q: usize = 1;
    while q < queue.len()
        invariant
            set.wf(),
            current < set@.len(),
            1 <= q <= queue.len(),
            place < q,
            forall|i: int| 0 <= i < queue.len() ==> (#[trigger] queue[i]) < set@.len(),
            least as nat == distance(set@[current as int], set@[queue[place as int] as int]),
            forall|i: int|
                0 <= i < q ==> {
                    let other: nat = distance(
                        set@[current as int],
                        set@[(#[trigger] queue[i]) as int],
                    );
                    least < other || (least == other && place <= i)
                },
        decreases queue.len() - q,
    {
        let d: u64 = set.dist_at(current, queue[q]);
        if d < least {
            least = d;
            place = q;
        }
        q += 1;
    }
    place
}

/// Builds the nearest-neighbour tour through the points of `set`: from the
/// first point to the nearest point not yet visited, the earliest in the
/// set where several are as near, until all are visited, and back to the
/// first point.
pub fn nearest_neighbor(set: PointSet) -> (route: Route)
    requires
        set.wf(),
    ensures
        is_greedy_order(set@, greedy_order(set@)),
        route@ == nearest_neighbor_route(set@),
{
    let n: usize = set.len();
    let ghost points: Seq<PointView> = set@;
    let mut queue: Vec<usize> = Vec::new();
    let mut j: usize = 1;
    while j < n
        invariant
            1 <= j <= n,
            queue.len() == j - 1,
            forall|q: int| 0 <= q < queue.len() ==> (#[trigger] queue[q]) == q + 1,
        decreases n - j,
    {
        queue.push(j);
        j += 1;
    }
    let mut total: u128 = 0;
    let mut current: usize = 0;
    let mut names: Vec<String> = Vec::new();
    names.push(set.point(0).get_name());
    let ghost mut order: Seq<int> = seq![0int];
    assert(reorder(points, order).drop_last() =~= Seq::<PointView>::empty());
    while queue.len() > 0
        invariant
            set.wf(),
            points == set@,
            n == points.len(),
            order.len() >= 1,
            order.len() + queue.len() == n,
            order[0] == 0,
            current == order.last(),
            forall|k: int| 0 <= k < order.len() ==> 0 <= #[trigger] order[k] < n,
            order.no_duplicates(),
            forall|q: int| 0 <= q < queue.len() ==> 0 < (#[trigger] queue[q]) < n,
            forall|p: int, q: int|
                0 <= p < q < queue.len() ==> (#[trigger] queue[p]) < (#[trigger] queue[q]),
            forall|k: int, q: int|
                0 <= k < order.len() && 0 <= q < queue.len() ==> (#[trigger] order[k])
                    != (#[trigger] queue[q]),
            forall|k: int, m: int|
                1 <= k <= m < order.len() ==> #[trigger] prefers(points, order, k, order[m]),
            forall|k: int, q: int|
                1 <= k < order.len() && 0 <= q < queue.len() ==> #[trigger] prefers(
                    points,
                    order,
                    k,
                    queue[q] as int,
                ),
            names.len() == order.len(),
            forall|k: int| 0 <= k < names.len() ==> (#[trigger] names[k])@ == points[order[k]].name,
            total as nat == chain_length(reorder(points, order)),
            total <= (order.len() - 1) * DISTANCE_LIMIT,
        decreases queue.len(),
    {
        let place: usize = nearest_in_queue(&set, current, &queue);
        let ghost waiting: Seq<usize> = queue@;
        let ghost before: Seq<int> = order;
        let next: usize = queue.remove(place);
        let d: u64 = set.dist_at(current, next);
        assert(order.len() * DISTANCE_LIMIT <= u128::MAX) by (nonlinear_arith)
            requires
                order.len() <= usize::MAX,
        ;
        assert(total + d <= order.len() * DISTANCE_LIMIT) by (nonlinear_arith)
            requires
                total <= (order.len() - 1) * DISTANCE_LIMIT,
                d < DISTANCE_LIMIT,
        ;
        total = total + d as u128;
        names.push(set.point(next).get_name());
        proof {
            order = before.push(next as int);
            let last: int = before.len() as int;
            assert(order.no_duplicates()) by {
                assert forall|a: int, b: int|
                    0 <= a < order.len() && 0 <= b < order.len() && a != b implies order[a]
                    != order[b] by {
                    if a < last && b < last {
                        assert(before[a] != before[b]);
                    } else if a < last {
                        assert(before[a] != waiting[place as int]);
                    } else {
                        assert(before[b] != waiting[place as int]);
                    }
                }
            }
            assert forall|q: int| 0 <= q < queue.len() implies 0 < (#[trigger] queue[q]) < n by {
                if q < place {
                    assert(queue[q] == waiting[q]);
                } else {
                    assert(queue[q] == waiting[q + 1]);
                }
            }
            assert forall|p: int, q: int| 0 <= p < q < queue.len() implies (#[trigger] queue[p]) < (
            #[trigger] queue[q]) by {
                let op: int = if p < place {
                    p
                } else {
                    p + 1
                };
                let oq: int = if q < place {
                    q
                } else {
                    q + 1
                };
                assert(queue[p] == waiting[op] && queue[q] == waiting[oq]);
            }
            assert forall|k: int, q: int|
                0 <= k < order.len() && 0 <= q < queue.len() implies (#[trigger] order[k]) != (
            #[trigger] queue[q]) by {
                let oq: int = if q < place {
                    q
                } else {
                    q + 1
                };
                assert(queue[q] == waiting[oq]);
                if k < last {
                    assert(before[k] != waiting[oq]);
                } else {
                    assert(waiting[place as int] != waiting[oq]) by {
                        if oq < place {
                            assert(waiting[oq] < waiting[place as int]);
                        } else {
                            assert(waiting[place as int] < waiting[oq]);
                        }
                    }
                }
            }
            assert forall|k: int, m: int| 1 <= k <= m < order.len() implies #[trigger] prefers(
                points,
                order,
                k,
                order[m],
            ) by {
                if m < last {
                    assert(prefers(points, before, k, before[m]));
                } else if k < last {
                    assert(prefers(points, before, k, waiting[place as int] as int));
                }
            }
            assert forall|k: int, q: int|
                1 <= k < order.len() && 0 <= q < queue.len() implies #[trigger] prefers(
                points,
                order,
                k,
                queue[q] as int,
            ) by {
                let oq: int = if q < place {
                    q
                } else {
                    q + 1
                };
                assert(queue[q] == waiting[oq]);
                if k < last {
                    assert(prefers(points, before, k, waiting[oq] as int));
                } else {
                    assert(place < oq ==> waiting[place as int] < waiting[oq]);
                }
            }
            assert(reorder(points, order).drop_last() =~= reorder(points, before));
        }
        current = next;
    }
    let d: u64 = set.dist_at(current, 0);
    assert(n * DISTANCE_LIMIT <= u128::MAX) by (nonlinear_arith)
        requires
            n <= usize::MAX,
    ;
    assert(total + d <= n * DISTANCE_LIMIT) by (nonlinear_arith)
        requires
            total <= (n - 1) * DISTANCE_LIMIT,
            d < DISTANCE_LIMIT,
    ;
    total = total + d as u128;
    names.push(set.point(0).get_name());
    let route: Route = Route::new(total, names);
    proof {
        assert(is_greedy_order(points, order));
        lemma_greedy_order_unique(points, order, greedy_order(points));
        let stops: Seq<PointView> = reorder(points, order.push(0));
        assert(stops.drop_last() =~= reorder(points, order));
        assert(route@.names =~= names_of(stops));
    }
    route
}

} // verus!
