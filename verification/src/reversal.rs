//! The move of the search: reversing a segment of a tour.

use crate::permutation::{is_permutation, lemma_reorder_keeps_items, reorder};
use crate::point::{views_of, Point};
use vstd::prelude::*;

verus! {

/// `items` with the elements at positions `start` to `end`, both included,
/// in reverse order. Everything outside the segment stays where it is;
/// where `start` is beyond `end` the segment is empty and nothing moves.
pub open spec fn reverse_segment<T>(items: Seq<T>, start: int, end: int) -> Seq<T> {
    Seq::new(
        items.len(),
        |i: int|
            if start <= i <= end {
                items[start + end - i]
            } else {
                items[i]
            },
    )
}

/// Reversing a segment keeps what the sequence holds, with multiplicity.
pub proof fn lemma_reverse_segment_keeps_items<T>(items: Seq<T>, start: int, end: int)
    requires
        0 <= start,
        end < items.len(),
    ensures
        reverse_segment(items, start, end).len() == items.len(),
        reverse_segment(items, start, end).to_multiset() == items.to_multiset(),
{
    let order: Seq<int> = Seq::new(
        items.len(),
        |i: int|
            if start <= i <= end {
                start + end - i
            } else {
                i
            },
    );
    assert(is_permutation(items.len(), order));
    lemma_reorder_keeps_items(items, order);
    assert(reorder(items, order) =~= reverse_segment(items, start, end));
}

/// Reversing a segment that lies strictly inside the sequence moves
/// neither the first element nor the last.
pub proof fn lemma_reverse_segment_keeps_ends<T>(items: Seq<T>, start: int, end: int)
    requires
        items.len() > 0,
        1 <= start,
        end < items.len() - 1,
    ensures
        reverse_segment(items, start, end).first() == items.first(),
        reverse_segment(items, start, end).last() == items.last(),
{
}

/// Reversing a segment of points and then looking at them is looking at
/// them and then reversing the segment.
pub proof fn lemma_reverse_segment_views(points: Seq<Point>, start: int, end: int)
    requires
        start <= end && start < points.len() ==> 0 <= start && end < points.len(),
    ensures
        views_of(reverse_segment(points, start, end)) == reverse_segment(
            views_of(points),
            start,
            end,
        ),
{
    assert(views_of(reverse_segment(points, start, end)) =~= reverse_segment(
        views_of(points),
        start,
        end,
    ));
}

/// The tour next to `set`: the same points, with those at positions
/// `start` to `end`, both included, in reverse order.
pub fn neighboring_tour(set: Vec<Point>, start: usize, end: usize) -> (tour: Vec<Point>)
    requires
        start <= end && start < set.len() ==> end < set.len(),
    ensures
        tour@ == reverse_segment(set@, start as int, end as int),
        views_of(tour@) == reverse_segment(views_of(set@), start as int, end as int),
{
    let mut new_subroute: Vec<Point> = Vec::new();
    let mut index: usize = 0;
    while index < set.len()
        invariant
            start <= end && start < set.len() ==> end < set.len(),
            index <= set.len(),
            new_subroute.len() == index,
            forall|i: int|
                0 <= i < index ==> #[trigger] new_subroute[i] == reverse_segment(
                    set@,
                    start as int,
                    end as int,
                )[i],
        decreases set.len() - index,
    {
        if index >= start && index <= end {
            let item: Point = set[end - (index - start)].clone();
            new_subroute.push(item);
        } else {
            let item: Point = set[index].clone();
            new_subroute.push(item);
        }
        index += 1;
    }
    proof {
        assert(new_subroute@ =~= reverse_segment(set@, start as int, end as int));
        lemma_reverse_segment_views(set@, start as int, end as int);
    }
    new_subroute
}

} // verus!
