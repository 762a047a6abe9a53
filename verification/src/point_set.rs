//! A set of named points with its table of pairwise distances.

use crate::point::{
    distance, lemma_distance_below_limit, lemma_distance_symmetric, lemma_distance_to_self, views_of,
    Point, PointView, DISTANCE_LIMIT,
};
use vstd::hash_map::StringHashMap;
use vstd::prelude::*;

verus! {

/// Why a point set could not be built, or a point not be found in it.
#[derive(Debug, Clone, Copy, PartialEq, Eq, Structural)]
pub enum PointSetError {
    /// There is no point at all.
    Empty,
    /// Two points have the same name.
    DuplicateName,
    /// No point of the set has the name that was asked for.
    PointNotFound,
}

/// No two points of the sequence share a name.
pub open spec fn distinct_names(points: Seq<PointView>) -> bool {
    forall|i: int, j: int|
        0 <= i < j < points.len() ==> (#[trigger] points[i]).name != (#[trigger] points[j]).name
}

/// Some point of the sequence is called `name`.
pub open spec fn has_name(points: Seq<PointView>, name: Seq<char>) -> bool {
    exists|i: int| 0 <= i < points.len() && (#[trigger] points[i]).name == name
}

/// A position at which the sequence holds a point called `name`: the only
/// one, where names are distinct.
pub open spec fn position_of(points: Seq<PointView>, name: Seq<char>) -> int {
    choose|i: int| 0 <= i < points.len() && (#[trigger] points[i]).name == name
}

/// `table` is square, as wide as `points` is long, and holds at row `i`,
/// column `j` the distance between the points at positions `i` and `j`.
pub open spec fn is_distance_table(points: Seq<PointView>, table: Seq<Seq<u64>>) -> bool {
    &&& table.len() == points.len()
    &&& forall|i: int| 0 <= i < points.len() ==> (#[trigger] table[i]).len() == points.len()
    &&& forall|i: int, j: int|
        0 <= i < points.len() && 0 <= j < points.len() ==> (#[trigger] table[i][j]) as nat
            == distance(points[i], points[j])
}

/// `index` maps the name of each point of `points` to its position, and
/// nothing else to anything.
pub open spec fn is_name_index(points: Seq<PointView>, index: Map<Seq<char>, usize>) -> bool {
    &&& forall|k: int|
        0 <= k < points.len() ==> index.contains_key((#[trigger] points[k]).name)
            && index[points[k].name] == k
    &&& forall|name: Seq<char>| #[trigger]
        index.contains_key(name) ==> index[name] < points.len() && points[index[name] as int].name
            == name
}

/// A name index exists only for points with distinct names.
pub proof fn lemma_name_index_distinct(points: Seq<PointView>, index: Map<Seq<char>, usize>)
    requires
        is_name_index(points, index),
    ensures
        distinct_names(points),
        forall|name: Seq<char>| has_name(points, name) <==> index.contains_key(name),
        forall|name: Seq<char>| #[trigger]
            index.contains_key(name) ==> position_of(points, name) == index[name],
{
    assert forall|name: Seq<char>| has_name(points, name) <==> index.contains_key(name) by {
        if has_name(points, name) {
            let i: int = position_of(points, name);
            assert(index.contains_key(points[i].name));
        }
        if index.contains_key(name) {
            assert(points[index[name] as int].name == name);
        }
    }
    assert forall|name: Seq<char>| #[trigger] index.contains_key(name) implies position_of(
        points,
        name,
    ) == index[name] by {
        assert(points[index[name] as int].name == name);
        let i: int = position_of(points, name);
        assert(index[points[i].name] == i);
    }
}

/// A distance table is symmetric and has zeros on its diagonal.
pub proof fn lemma_table_symmetric(points: Seq<PointView>, table: Seq<Seq<u64>>)
    requires
        is_distance_table(points, table),
    ensures
        forall|i: int, j: int|
            0 <= i < points.len() && 0 <= j < points.len() ==> #[trigger] table[i][j] == table[j][i],
        forall|i: int| 0 <= i < points.len() ==> (#[trigger] table[i])[i] == 0,
{
    assert forall|i: int, j: int| 0 <= i < points.len() && 0 <= j < points.len() implies (
    #[trigger] table[i][j]) == table[j][i] by {
        lemma_distance_symmetric(points[i], points[j]);
        assert(table[j][i] as nat == distance(points[j], points[i]));
    }
    assert forall|i: int| 0 <= i < points.len() implies (#[trigger] table[i])[i] == 0 by {
        lemma_distance_to_self(points[i], points[i]);
        assert(table[i][i] as nat == distance(points[i], points[i]));
    }
}

/// Computes the table of the distances between every two of `points`.
pub fn calculate_distance_table(points: &Vec<Point>) -> (table: Vec<Vec<u64>>)
    ensures
        is_distance_table(views_of(points@), table.deep_view()),
{
    let n: usize = points.len();
    let mut table: Vec<Vec<u64>> = Vec::new();
    let mut i: usize = 0;
    while i < n
        invariant
            n == points.len(),
            i <= n,
            table.len() == i,
            forall|a: int| 0 <= a < i ==> (#[trigger] table[a]).len() == n,
            forall|a: int, b: int|
                0 <= a < i && 0 <= b < n ==> (#[trigger] table[a][b]) as nat == distance(
                    points[a]@,
                    points[b]@,
                ),
        decreases n - i,
    {
        let mut row: Vec<u64> = Vec::new();
        let mut j: usize = 0;
        while j < n
            invariant
                n == points.len(),
                i < n,
                j <= n,
                row.len() == j,
                forall|b: int|
                    0 <= b < j ==> (#[trigger] row[b]) as nat == distance(points[i as int]@, points[b]@),
            decreases n - j,
        {
            row.push(points[i].dist(&points[j]));
            j += 1;
        }
        table.push(row);
        i += 1;
    }
    proof {
        let t: Seq<Seq<u64>> = table.deep_view();
        let p: Seq<PointView> = views_of(points@);
        assert forall|a: int| 0 <= a < p.len() implies (#[trigger] t[a]).len() == p.len() by {
            assert(t[a] == table[a].deep_view());
        }
        assert forall|a: int, b: int| 0 <= a < p.len() && 0 <= b < p.len() implies (
        #[trigger] t[a][b]) as nat == distance(p[a], p[b]) by {
            assert(t[a] == table[a].deep_view());
            assert(t[a][b] == table[a][b]);
        }
    }
    table
}

/// A non-empty sequence of points with distinct names, kept with an index
/// from name to position and with the table of pairwise distances. The
/// first point is where every tour starts.
pub struct PointSet {
    points: Vec<Point>,
    index: StringHashMap<usize>,
    distance_table: Vec<Vec<u64>>,
}

impl View for PointSet {
    type V = Seq<PointView>;

    closed spec fn view(&self) -> Seq<PointView> {
        views_of(self.points@)
    }
}

impl PointSet {
    /// The distance table that the set keeps.
    pub closed spec fn table(&self) -> Seq<Seq<u64>> {
        self.distance_table.deep_view()
    }

    /// The index from name to position that the set keeps.
    pub closed spec fn name_index(&self) -> Map<Seq<char>, usize> {
        self.index@
    }

    /// The set is not empty, and its index and its table agree with its
    /// points.
    pub open spec fn wf(&self) -> bool {
        &&& self@.len() > 0
        &&& is_name_index(self@, self.name_index())
        &&& is_distance_table(self@, self.table())
    }

    /// Builds the set of `points`, in the order given. An empty sequence and
    /// one in which a name occurs twice are refused.
    pub fn new(points: Vec<Point>) -> (made: Result<PointSet, PointSetError>)
        ensures
            match made {
                Ok(set) => set.wf() && set@ == views_of(points@),
                Err(PointSetError::Empty) => points.len() == 0,
                Err(PointSetError::DuplicateName) => points.len() > 0 && !distinct_names(
                    views_of(points@),
                ),
                Err(PointSetError::PointNotFound) => false,
            },
            made is Ok <==> points.len() > 0 && distinct_names(views_of(points@)),
    {
        let n: usize = points.len();
        if n == 0 {
            return Err(PointSetError::Empty);
        }
        let ghost p: Seq<PointView> = views_of(points@);
        let mut index: StringHashMap<usize> = StringHashMap::new();
        let mut i: usize = 0;
        while i < n
            invariant
                n == points.len(),
                i <= n,
                p == views_of(points@),
                is_name_index(p.take(i as int), index@),
            decreases n - i,
        {
            let name: String = points[i].get_name();
            if index.contains_key(name.as_str()) {
                proof {
                    let k: int = index@[name@] as int;
                    assert(p.take(i as int)[k].name == name@);
                    assert(p[k].name == p[i as int].name);
                }
                return Err(PointSetError::DuplicateName);
            }
            let ghost before: Map<Seq<char>, usize> = index@;
            index.insert(name, i);
            proof {
                let shorter: Seq<PointView> = p.take(i as int);
                let longer: Seq<PointView> = p.take(i + 1);
                assert forall|k: int| 0 <= k < longer.len() implies index@.contains_key(
                    (#[trigger] longer[k]).name,
                ) && index@[longer[k].name] == k by {
                    if k < i {
                        assert(before.contains_key(shorter[k].name));
                    }
                }
                assert forall|name: Seq<char>| #[trigger] index@.contains_key(name) implies index@[name]
                    < longer.len() && longer[index@[name] as int].name == name by {
                    if name != p[i as int].name {
                        assert(before.contains_key(name));
                        assert(shorter[before[name] as int].name == name);
                    }
                }
            }
            i += 1;
        }
        let distance_table: Vec<Vec<u64>> = calculate_distance_table(&points);
        proof {
            assert(p.take(n as int) == p);
            lemma_name_index_distinct(p, index@);
        }
        Ok(PointSet { points, index, distance_table })
    }

    /// How many points the set holds.
    pub fn len(&self) -> (n: usize)
        ensures
            n == self@.len(),
    {
        self.points.len()
    }

    /// The points of the set, in order.
    pub fn points(&self) -> (points: &Vec<Point>)
        ensures
            views_of(points@) == self@,
    {
        &self.points
    }

    /// The point at position `i`.
    pub fn point(&self, i: usize) -> (p: &Point)
        requires
            i < self@.len(),
        ensures
            p@ == self@[i as int],
    {
        &self.points[i]
    }

    /// The distance table of the set.
    pub fn distance_table(&self) -> (table: &Vec<Vec<u64>>)
        ensures
            table.deep_view() == self.table(),
    {
        &self.distance_table
    }

    /// The distance between the points at positions `i` and `j`, read from
    /// the table.
    pub fn dist_at(&self, i: usize, j: usize) -> (d: u64)
        requires
            self.wf(),
            i < self@.len(),
            j < self@.len(),
        ensures
            d as nat == distance(self@[i as int], self@[j as int]),
            d < DISTANCE_LIMIT,
    {
        proof {
            self.points@[i as int].lemma_on_grid();
            self.points@[j as int].lemma_on_grid();
            lemma_distance_below_limit(self@[i as int], self@[j as int]);
            let t: Seq<Seq<u64>> = self.distance_table.deep_view();
            assert(t[i as int].len() == self@.len());
            assert(t[i as int] == self.distance_table[i as int].deep_view());
            assert(t[i as int][j as int] == self.distance_table[i as int][j as int]);
        }
        self.distance_table[i][j]
    }

    /// The position of the point called `name`, if there is one.
    pub fn position(&self, name: &str) -> (found: Option<usize>)
        requires
            self.wf(),
        ensures
            match found {
                Some(i) => has_name(self@, name@) && i == position_of(self@, name@),
                None => !has_name(self@, name@),
            },
    {
        proof {
            lemma_name_index_distinct(self@, self.index@);
        }
        match self.index.get(name) {
            Some(i) => Some(*i),
            None => None,
        }
    }

    /// The distance between the point called `first` and the point called
    /// `second`, or `PointNotFound` where the set has no point of one of
    /// these names.
    pub fn dist_between(&self, first: String, second: String) -> (found: Result<u64, PointSetError>)
        requires
            self.wf(),
        ensures
            has_name(self@, first@) && has_name(self@, second@) ==> found is Ok
                && found->Ok_0 as nat == distance(
                self@[position_of(self@, first@)],
                self@[position_of(self@, second@)],
            ),
            !(has_name(self@, first@) && has_name(self@, second@)) ==> found == Err::<
                u64,
                PointSetError,
            >(PointSetError::PointNotFound),
    {
        match (self.position(first.as_str()), self.position(second.as_str())) {
            (Some(i), Some(j)) => Ok(self.dist_at(i, j)),
            _ => Err(PointSetError::PointNotFound),
        }
    }
}

/// The table of a well-formed set is symmetric and has zeros on its
/// diagonal.
pub proof fn lemma_point_set_table_symmetric(set: PointSet)
    requires
        set.wf(),
    ensures
        forall|i: int, j: int|
            0 <= i < set@.len() && 0 <= j < set@.len() ==> #[trigger] set.table()[i][j]
                == set.table()[j][i],
        forall|i: int| 0 <= i < set@.len() ==> (#[trigger] set.table()[i])[i] == 0,
{
    lemma_table_symmetric(set@, set.table());
}

} // verus!
