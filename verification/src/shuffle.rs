//! The random tour that a search starts from: the points of a set with
//! the first and the last left in place and the others in random order.

use crate::point::{views_of, Point, PointView};
use rand::rngs::ThreadRng;
use rand::Rng;
use vstd::prelude::*;

verus! {

/// The thread-local random number generator of the `rand` crate. Nothing
/// is known of what is inside.
#[verifier::external_type_specification]
#[verifier::external_body]
pub struct ExThreadRng(ThreadRng);

/// `rand::thread_rng` hands out the generator of the current thread, which
/// the operating system seeds. Nothing is claimed of it.
pub assume_specification[ rand::thread_rng ]() -> (rng: ThreadRng);

/// Calls `Rng::gen_range` of the `rand` crate, which draws a number that is
/// at least `low` and less than `high`, and panics unless `low` is less
/// than `high`. Which number comes is left open.
#[verifier::external_body]
pub(crate) fn random_index(rng: &mut ThreadRng, low: usize, high: usize) -> (index: usize)
    requires
        low < high,
    ensures
        low <= index < high,
{
    rng.gen_range(low, high)
}

/// The numbers of `v` as mathematical integers.
pub open spec fn ints(v: Seq<usize>) -> Seq<int> {
    v.map_values(|i: usize| i as int)
}

/// `picks` can empty a queue of `len` items one by one: there is a pick for
/// each item, and each pick is a position in what is left of the queue when
/// its turn comes.
pub open spec fn valid_picks(len: nat, picks: Seq<int>) -> bool {
    &&& picks.len() == len
    &&& forall|k: int| 0 <= k < picks.len() ==> 0 <= #[trigger] picks[k] < len - k
}

/// The items in the order in which `picks` takes them out of the queue
/// `items`: each pick removes the item at that position of what is left.
pub open spec fn drawn<T>(items: Seq<T>, picks: Seq<int>) -> Seq<T>
    decreases picks.len(),
{
    if picks.len() == 0 {
        Seq::empty()
    } else {
        seq![items[picks[0]]] + drawn(items.remove(picks[0]), picks.drop_first())
    }
}

/// `items` with everything between the first and the last taken in the
/// order of `picks`. A sequence of fewer than three items has nothing in
/// between and stays as it is.
pub open spec fn shuffled_inside<T>(items: Seq<T>, picks: Seq<int>) -> Seq<T> {
    if items.len() < 3 {
        items
    } else {
        seq![items.first()] + drawn(items.subrange(1, items.len() - 1), picks) + seq![items.last()]
    }
}

/// `after` holds what `before` holds, each item as often, with the same
/// first and the same last item.
pub open spec fn is_inner_shuffle<T>(before: Seq<T>, after: Seq<T>) -> bool {
    &&& after.len() == before.len()
    &&& after.to_multiset() == before.to_multiset()
    &&& before.len() > 0 ==> after.first() == before.first() && after.last() == before.last()
}

/// Taking the items of a queue out one by one, in any order, yields each
/// of them once.
pub proof fn lemma_drawn_keeps_items<T>(items: Seq<T>, picks: Seq<int>)
    requires
        valid_picks(items.len(), picks),
    ensures
        drawn(items, picks).len() == items.len(),
        drawn(items, picks).to_multiset() == items.to_multiset(),
    decreases picks.len(),
{
    broadcast use vstd::seq_lib::group_to_multiset_ensures;

    if picks.len() == 0 {
        assert(drawn(items, picks) =~= items);
    } else {
        let pick: int = picks[0];
        let left: Seq<T> = items.remove(pick);
        let rest: Seq<int> = picks.drop_first();
        assert forall|k: int| 0 <= k < rest.len() implies 0 <= #[trigger] rest[k] < left.len() - k by {
            assert(rest[k] == picks[k + 1]);
        }
        lemma_drawn_keeps_items(left, rest);
        let tail: Seq<T> = drawn(left, rest);
        assert(drawn(items, picks) =~= tail.insert(0, items[pick]));
        assert(items =~= left.insert(pick, items[pick]));
        vstd::seq_lib::to_multiset_insert(tail, 0, items[pick]);
        vstd::seq_lib::to_multiset_insert(left, pick, items[pick]);
    }
}

/// Shuffling the inside of a sequence keeps its items, its first item and
/// its last.
pub proof fn lemma_shuffled_inside_is_shuffle<T>(items: Seq<T>, picks: Seq<int>)
    requires
        items.len() >= 3 ==> valid_picks((items.len() - 2) as nat, picks),
    ensures
        is_inner_shuffle(items, shuffled_inside(items, picks)),
{
    broadcast use vstd::seq_lib::group_to_multiset_ensures;

    if items.len() >= 3 {
        let inside: Seq<T> = items.subrange(1, items.len() - 1);
        lemma_drawn_keeps_items(inside, picks);
        let mixed: Seq<T> = drawn(inside, picks);
        assert(items =~= inside.insert(0, items.first()).push(items.last()));
        assert(shuffled_inside(items, picks) =~= mixed.insert(0, items.first()).push(items.last()));
        vstd::seq_lib::to_multiset_insert(inside, 0, items.first());
        vstd::seq_lib::to_multiset_insert(mixed, 0, items.first());
    }
}

/// The tour through the points of `set` in which the first and the last
/// point stay in place and the points between them come in the order in
/// which `picks` takes them out of their queue.
pub fn route_from_picks(set: Vec<Point>, picks: &Vec<usize>) -> (route: Vec<Point>)
    requires
        set.len() >= 3 ==> valid_picks((set.len() - 2) as nat, ints(picks@)),
    ensures
        views_of(route@) == shuffled_inside(views_of(set@), ints(picks@)),
        is_inner_shuffle(views_of(set@), views_of(route@)),
{
    let ghost whole: Seq<PointView> = views_of(set@);
    let ghost chosen: Seq<int> = ints(picks@);
    proof {
        lemma_shuffled_inside_is_shuffle(whole, chosen);
    }
    if set.len() < 3 {
        return set;
    }
    let mut queue: Vec<Point> = set;
    let first: Point = queue.remove(0);
    let last_index: usize = queue.len() - 1;
    let last: Point = queue.remove(last_index);
    let ghost inside: Seq<PointView> = views_of(queue@);
    assert(inside =~= whole.subrange(1, whole.len() - 1));
    let mut path: Vec<Point> = Vec::new();
    let mut k: usize = 0;
    assert(chosen.skip(0) =~= chosen);
    while k < picks.len()
        invariant
            chosen == ints(picks@),
            valid_picks(inside.len(), chosen),
            k <= picks.len(),
            queue.len() == picks.len() - k,
            views_of(path@) + drawn(views_of(queue@), chosen.skip(k as int)) == drawn(
                inside,
                chosen,
            ),
        decreases picks.len() - k,
    {
        let ghost waiting: Seq<PointView> = views_of(queue@);
        let ghost done: Seq<PointView> = views_of(path@);
        assert(chosen[k as int] == picks[k as int]);
        let current: Point = queue.remove(picks[k]);
        path.push(current);
        proof {
            let ahead: Seq<int> = chosen.skip(k as int);
            assert(ahead[0] == chosen[k as int]);
            assert(ahead.drop_first() =~= chosen.skip(k + 1));
            assert(views_of(queue@) =~= waiting.remove(chosen[k as int]));
            assert(views_of(path@) =~= done.push(waiting[chosen[k as int]]));
            assert(views_of(path@) + drawn(views_of(queue@), chosen.skip(k + 1)) =~= done + drawn(
                waiting,
                ahead,
            ));
        }
        k += 1;
    }
    let ghost mixed: Seq<PointView> = views_of(path@);
    assert(mixed =~= drawn(inside, chosen)) by {
        assert(drawn(views_of(queue@), chosen.skip(k as int)) =~= Seq::<PointView>::empty());
    }
    let mut new_vec: Vec<Point> = Vec::new();
    new_vec.push(first);
    new_vec.append(&mut path);
    new_vec.push(last);
    assert(views_of(new_vec@) =~= seq![whole.first()] + mixed + seq![whole.last()]);
    new_vec
}

/// Draws, for a queue of `count` items, the position of the item to take
/// out at each turn.
fn random_picks(count: usize) -> (picks: Vec<usize>)
    ensures
        valid_picks(count as nat, ints(picks@)),
{
    let mut rng: ThreadRng = rand::thread_rng();
    let mut picks: Vec<usize> = Vec::new();
    let mut k: usize = 0;
    while k < count
        invariant
            k <= count,
            picks.len() == k,
            forall|i: int| 0 <= i < k ==> (#[trigger] picks[i]) < count - i,
        decreases count - k,
    {
        let pick: usize = random_index(&mut rng, 0, count - k);
        picks.push(pick);
        k += 1;
    }
    picks
}

/// A random tour through the points of `set`: the first and the last point
/// stay in place, the points between them come in random order. Fewer than
/// three points leave nothing to reorder and come back as they are.
pub fn random_route(set: Vec<Point>) -> (route: Vec<Point>)
    ensures
        is_inner_shuffle(views_of(set@), views_of(route@)),
        exists|picks: Seq<int>|
            (set.len() >= 3 ==> valid_picks((set.len() - 2) as nat, picks)) && views_of(route@)
                == #[trigger] shuffled_inside(views_of(set@), picks),
{
    let count: usize = if set.len() < 3 {
        0
    } else {
        set.len() - 2
    };
    let picks: Vec<usize> = random_picks(count);
    let route: Vec<Point> = route_from_picks(set, &picks);
    assert(views_of(route@) == shuffled_inside(views_of(set@), ints(picks@)));
    route
}

} // verus!
