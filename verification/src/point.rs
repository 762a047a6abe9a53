//! Named points of the integer plane and the distance between them.

use crate::sqrt::{
    floor_sqrt, isqrt, lemma_floor_sqrt, lemma_floor_sqrt_monotonic, lemma_floor_sqrt_of_square,
    lemma_square_monotonic,
};
use vstd::prelude::*;

verus! {

/// How many units of length make one coordinate unit: lengths are kept in
/// thousandths.
pub const SCALE: u64 = 1000;

/// A strict upper bound on the distance between two points whose
/// coordinates are 32-bit integers.
pub const DISTANCE_LIMIT: u64 = 0x800_0000_0000;

/// A named point with integer coordinates.
#[derive(Debug)]
pub struct Point {
    name: String,
    x: i32,
    y: i32,
}

/// The mathematical model of a point: its name as a sequence of
/// characters, and its coordinates as mathematical integers.
pub ghost struct PointView {
    pub name: Seq<char>,
    pub x: int,
    pub y: int,
}

impl View for Point {
    type V = PointView;

    closed spec fn view(&self) -> PointView {
        PointView { name: self.name@, x: self.x as int, y: self.y as int }
    }
}

/// The coordinates fit in 32-bit signed integers.
pub open spec fn on_grid(p: PointView) -> bool {
    &&& i32::MIN <= p.x <= i32::MAX
    &&& i32::MIN <= p.y <= i32::MAX
}

/// The square of the Euclidean distance between `a` and `b`, in coordinate
/// units.
pub open spec fn squared_distance(a: PointView, b: PointView) -> nat {
    ((a.x - b.x) * (a.x - b.x) + (a.y - b.y) * (a.y - b.y)) as nat
}

/// The Euclidean distance between `a` and `b` in thousandths of a
/// coordinate unit, rounded down.
pub open spec fn distance(a: PointView, b: PointView) -> nat {
    floor_sqrt(squared_distance(a, b) * 1_000_000)
}

/// The names of a sequence of points, in order.
pub open spec fn names_of(points: Seq<PointView>) -> Seq<Seq<char>> {
    points.map_values(|p: PointView| p.name)
}

/// The views of a sequence of points, in order.
pub open spec fn views_of(points: Seq<Point>) -> Seq<PointView> {
    points.map_values(|p: Point| p@)
}

/// The characters of each string of a sequence, in order.
pub open spec fn texts_of(strings: Seq<String>) -> Seq<Seq<char>> {
    strings.map_values(|s: String| s@)
}

impl Point {
    /// Makes the point called `name` at `(x, y)`.
    pub fn new(name: &str, x: i32, y: i32) -> (p: Point)
        ensures
            p@ == (PointView { name: name@, x: x as int, y: y as int }),
    {
        Point { name: name.to_owned(), x, y }
    }

    /// The distance from this point to `p` in thousandths of a coordinate
    /// unit, rounded down.
    pub fn dist(&self, p: &Point) -> (d: u64)
        ensures
            d as nat == distance(self@, p@),
            d < DISTANCE_LIMIT,
    {
        let dx: i128 = self.x as i128 - p.x as i128;
        let dy: i128 = self.y as i128 - p.y as i128;
        assert(0 <= dx * dx <= 0x1_0000_0000_0000_0000) by (nonlinear_arith)
            requires
                -0x1_0000_0000 <= dx <= 0x1_0000_0000,
        ;
        assert(0 <= dy * dy <= 0x1_0000_0000_0000_0000) by (nonlinear_arith)
            requires
                -0x1_0000_0000 <= dy <= 0x1_0000_0000,
        ;
        let squared: u128 = (dx * dx + dy * dy) as u128;
        let scaled: u128 = squared * 1_000_000;
        proof {
            self.lemma_on_grid();
            p.lemma_on_grid();
            lemma_distance_below_limit(self@, p@);
        }
        isqrt(scaled)
    }

    /// The point's name.
    pub fn get_name(&self) -> (name: String)
        ensures
            name@ == self@.name,
    {
        self.name.clone()
    }

    /// The point's horizontal coordinate.
    pub fn x(&self) -> (x: i32)
        ensures
            x == self@.x,
    {
        self.x
    }

    /// The point's vertical coordinate.
    pub fn y(&self) -> (y: i32)
        ensures
            y == self@.y,
    {
        self.y
    }

    /// The coordinates of a point that a program holds fit in 32 bits.
    pub proof fn lemma_on_grid(&self)
        ensures
            on_grid(self@),
    {
    }
}

impl Clone for Point {
    fn clone(&self) -> (p: Point)
        ensures
            p == *self,
    {
        Point { name: self.name.clone(), x: self.x, y: self.y }
    }
}

/// The distance from `a` to `b` is the distance from `b` to `a`.
pub proof fn lemma_distance_symmetric(a: PointView, b: PointView)
    ensures
        squared_distance(a, b) == squared_distance(b, a),
        distance(a, b) == distance(b, a),
{
    assert((a.x - b.x) * (a.x - b.x) == (b.x - a.x) * (b.x - a.x)) by (nonlinear_arith);
    assert((a.y - b.y) * (a.y - b.y) == (b.y - a.y) * (b.y - a.y)) by (nonlinear_arith);
}

/// A point is at distance zero from itself, and from any point that shares
/// its coordinates, whatever their names.
pub proof fn lemma_distance_to_self(a: PointView, b: PointView)
    requires
        a.x == b.x,
        a.y == b.y,
    ensures
        distance(a, b) == 0,
{
    assert(squared_distance(a, b) * 1_000_000 == 0nat * 0nat) by (nonlinear_arith)
        requires
            a.x == b.x,
            a.y == b.y,
            squared_distance(a, b) == ((a.x - b.x) * (a.x - b.x) + (a.y - b.y) * (a.y - b.y)) as nat,
    ;
    lemma_floor_sqrt_of_square(0);
}

/// Two points are at distance zero exactly when their coordinates agree;
/// points in different places are at least one coordinate unit apart.
pub proof fn lemma_distance_zero_iff_same_place(a: PointView, b: PointView)
    ensures
        distance(a, b) == 0 <==> (a.x == b.x && a.y == b.y),
        !(a.x == b.x && a.y == b.y) ==> distance(a, b) >= SCALE,
{
    if a.x == b.x && a.y == b.y {
        lemma_distance_to_self(a, b);
    } else {
        assert((a.x - b.x) * (a.x - b.x) + (a.y - b.y) * (a.y - b.y) >= 1) by (nonlinear_arith)
            requires
                !(a.x == b.x && a.y == b.y),
        ;
        assert(1000nat * 1000nat == 1_000_000) by (nonlinear_arith);
        lemma_floor_sqrt_of_square(1000);
        lemma_floor_sqrt_monotonic(1_000_000, squared_distance(a, b) * 1_000_000);
    }
}

/// The fixed-point distance brackets the Euclidean one: its square is at
/// most a million times the squared Euclidean distance, and the square of
/// the next thousandth is more. So it is the Euclidean distance rounded
/// down to a thousandth.
pub proof fn lemma_distance_rounds_down(a: PointView, b: PointView)
    ensures
        distance(a, b) * distance(a, b) <= squared_distance(a, b) * 1_000_000,
        squared_distance(a, b) * 1_000_000 < (distance(a, b) + 1) * (distance(a, b) + 1),
{
    lemma_floor_sqrt(squared_distance(a, b) * 1_000_000);
}

/// Points with 32-bit coordinates are less than `DISTANCE_LIMIT` apart.
pub proof fn lemma_distance_below_limit(a: PointView, b: PointView)
    requires
        on_grid(a),
        on_grid(b),
    ensures
        squared_distance(a, b) <= 0x2_0000_0000_0000_0000,
        distance(a, b) < DISTANCE_LIMIT,
{
    let dx: int = a.x - b.x;
    let dy: int = a.y - b.y;
    assert(0 <= dx * dx <= 0x1_0000_0000_0000_0000) by (nonlinear_arith)
        requires
            -0x1_0000_0000 <= dx <= 0x1_0000_0000,
    ;
    assert(0 <= dy * dy <= 0x1_0000_0000_0000_0000) by (nonlinear_arith)
        requires
            -0x1_0000_0000 <= dy <= 0x1_0000_0000,
    ;
    let n: nat = squared_distance(a, b) * 1_000_000;
    let r: nat = floor_sqrt(n);
    lemma_floor_sqrt(n);
    if r >= 0x800_0000_0000 {
        lemma_square_monotonic(0x800_0000_0000, r);
        assert(0x800_0000_0000nat * 0x800_0000_0000nat == 0x40_0000_0000_0000_0000_0000) by (nonlinear_arith);
    }
}

} // verus!
