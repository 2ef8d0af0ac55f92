//! Lattice points, displacement vectors and their arithmetic.

use vstd::prelude::*;

verus! {

/// A position on the lattice, one coordinate per axis.
#[derive(Debug, PartialEq, Eq)]
pub struct Point {
    pub coords: Vec<i32>,
}

/// A displacement on the lattice. Its coordinates are wide enough to hold the
/// difference of any two points.
#[derive(Debug, PartialEq, Eq)]
pub struct Vector {
    pub coords: Vec<i64>,
}

impl View for Point {
    type V = Seq<int>;

    open spec fn view(&self) -> Seq<int> {
        Seq::new(self.coords@.len(), |i: int| self.coords@[i] as int)
    }
}

impl View for Vector {
    type V = Seq<int>;

    open spec fn view(&self) -> Seq<int> {
        Seq::new(self.coords@.len(), |i: int| self.coords@[i] as int)
    }
}

/// The sum of the squared coordinates of `v`.
pub open spec fn norm_squared(v: Seq<int>) -> int
    decreases v.len(),
{
    if v.len() == 0 {
        0
    } else {
        norm_squared(v.drop_last()) + v.last() * v.last()
    }
}

/// The displacement that carries `from` onto `to`.
pub open spec fn delta(from: Seq<int>, to: Seq<int>) -> Seq<int> {
    Seq::new(from.len(), |i: int| to[i] - from[i])
}

/// The squared Euclidean distance between `a` and `b`.
pub open spec fn distance_squared(a: Seq<int>, b: Seq<int>) -> int {
    norm_squared(delta(a, b))
}

/// `v` with every coordinate negated.
pub open spec fn negated(v: Seq<int>) -> Seq<int> {
    Seq::new(v.len(), |i: int| -v[i])
}

/// Every coordinate of `v` is zero.
pub open spec fn is_zero(v: Seq<int>) -> bool {
    forall|i: int| 0 <= i < v.len() ==> v[i] == 0
}

/// The absolute value of `x`.
pub open spec fn magnitude(x: int) -> int {
    if x < 0 {
        -x
    } else {
        x
    }
}

/// A square does not see the sign of its root.
pub proof fn lemma_square_of_magnitude(x: int)
    by (nonlinear_arith)
    ensures
        magnitude(x) * magnitude(x) == x * x,
        (-x) * (-x) == x * x,
        0 <= x * x,
{
}

/// A squared norm is never negative.
pub proof fn lemma_norm_squared_nonnegative(v: Seq<int>)
    ensures
        0 <= norm_squared(v),
    decreases v.len(),
{
    if v.len() > 0 {
        lemma_norm_squared_nonnegative(v.drop_last());
        lemma_square_of_magnitude(v.last());
    }
}

/// Negating a vector keeps its squared norm.
pub proof fn lemma_norm_squared_negated(v: Seq<int>)
    ensures
        norm_squared(negated(v)) == norm_squared(v),
    decreases v.len(),
{
    if v.len() > 0 {
        lemma_norm_squared_negated(v.drop_last());
        assert(negated(v).drop_last() =~= negated(v.drop_last()));
        lemma_square_of_magnitude(v.last());
    }
}

/// No squared coordinate exceeds the squared norm.
pub proof fn lemma_coordinate_within_norm(v: Seq<int>, i: int)
    requires
        0 <= i < v.len(),
    ensures
        v[i] * v[i] <= norm_squared(v),
    decreases v.len(),
{
    lemma_norm_squared_nonnegative(v.drop_last());
    lemma_square_of_magnitude(v.last());
    if i < v.len() - 1 {
        lemma_coordinate_within_norm(v.drop_last(), i);
    }
}

/// Distance is symmetric.
pub proof fn lemma_distance_squared_symmetric(a: Seq<int>, b: Seq<int>)
    requires
        a.len() == b.len(),
    ensures
        distance_squared(a, b) == distance_squared(b, a),
{
    lemma_norm_squared_negated(delta(a, b));
    assert(negated(delta(a, b)) =~= delta(b, a));
}

/// A vector of squared norm zero is the zero vector, and conversely.
pub proof fn lemma_zero_norm(v: Seq<int>)
    ensures
        norm_squared(v) == 0 <==> is_zero(v),
    decreases v.len(),
{
    if v.len() > 0 {
        let w = v.drop_last();
        lemma_zero_norm(w);
        lemma_norm_squared_nonnegative(w);
        lemma_square_of_magnitude(v.last());
        assert(v.last() * v.last() == 0 <==> v.last() == 0) by (nonlinear_arith);
        if is_zero(v) {
            assert(forall|i: int| 0 <= i < w.len() ==> w[i] == v[i]);
            assert(v.last() == v[v.len() - 1]);
        }
        if norm_squared(v) == 0 {
            assert forall|i: int| 0 <= i < v.len() implies v[i] == 0 by {
                if i < w.len() {
                    assert(w[i] == v[i]);
                }
            }
        }
    }
}

/// The absolute value of the difference of two 32-bit coordinates.
pub fn coordinate_gap(from: i32, to: i32) -> (m: u64)
    ensures
        m == magnitude(to - from),
        m <= 0xffff_ffff,
{
    let d: i64 = to as i64 - from as i64;
    if d < 0 {
        (-d) as u64
    } else {
        d as u64
    }
}

impl Point {
    /// The point with the given coordinates.
    pub fn new(coords: Vec<i32>) -> (p: Point)
        ensures
            p.coords@ == coords@,
    {
        Point { coords }
    }

    /// The number of axes.
    pub fn dimension(&self) -> (n: usize)
        ensures
            n == self@.len(),
    {
        self.coords.len()
    }

    /// The squared Euclidean distance to `other`.
    pub fn distance_squared(&self, other: &Point) -> (d: u128)
        requires
            self@.len() == other@.len(),
        ensures
            d == distance_squared(self@, other@),
    {
        let n: usize = self.coords.len();
        let ghost gap = delta(self@, other@);
        let mut sum: u128 = 0;
        let mut i: usize = 0;
        while i < n
            invariant
                n == self.coords@.len(),
                n == other.coords@.len(),
                gap == delta(self@, other@),
                i <= n,
                sum == norm_squared(gap.take(i as int)),
                sum <= i * 0xffff_fffe_0000_0001,
            decreases n - i,
        {
            let m: u128 = coordinate_gap(self.coords[i], other.coords[i]) as u128;
            proof {
                lemma_square_of_magnitude(gap[i as int]);
                assert(m * m <= 0xffff_fffe_0000_0001) by (nonlinear_arith)
                    requires
                        0 <= m <= 0xffff_ffff,
                ;
                assert(gap.take(i + 1).drop_last() =~= gap.take(i as int));
            }
            sum = sum + m * m;
            i = i + 1;
        }
        assert(gap.take(n as int) =~= gap);
        sum
    }

    /// The displacement that carries `other` onto `self`.
    pub fn minus(&self, other: &Point) -> (v: Vector)
        requires
            self@.len() == other@.len(),
        ensures
            v@ == delta(other@, self@),
    {
        let n: usize = self.coords.len();
        let mut coords: Vec<i64> = Vec::new();
        let mut i: usize = 0;
        while i < n
            invariant
                n == self.coords@.len(),
                n == other.coords@.len(),
                i <= n,
                coords@.len() == i,
                forall|k: int| 0 <= k < i ==> coords@[k] == self.coords@[k] - other.coords@[k],
            decreases n - i,
        {
            coords.push(self.coords[i] as i64 - other.coords[i] as i64);
            i = i + 1;
        }
        let v = Vector { coords };
        assert(v@ =~= delta(other@, self@));
        v
    }
}

impl Clone for Point {
    fn clone(&self) -> (p: Point)
        ensures
            p@ == self@,
            p.coords@ == self.coords@,
    {
        let n: usize = self.coords.len();
        let mut coords: Vec<i32> = Vec::new();
        let mut i: usize = 0;
        while i < n
            invariant
                n == self.coords@.len(),
                i <= n,
                coords@ == self.coords@.take(i as int),
            decreases n - i,
        {
            coords.push(self.coords[i]);
            assert(coords@ =~= self.coords@.take(i + 1));
            i = i + 1;
        }
        assert(coords@ =~= self.coords@);
        Point { coords }
    }
}

impl Vector {
    /// The vector with the given coordinates.
    pub fn new(coords: Vec<i64>) -> (v: Vector)
        ensures
            v.coords@ == coords@,
    {
        Vector { coords }
    }

    /// The number of axes.
    pub fn dimension(&self) -> (n: usize)
        ensures
            n == self@.len(),
    {
        self.coords.len()
    }

    /// Whether every coordinate is zero.
    pub fn is_zero(&self) -> (z: bool)
        ensures
            z == is_zero(self@),
    {
        let n: usize = self.coords.len();
        let mut i: usize = 0;
        while i < n
            invariant
                n == self.coords@.len(),
                i <= n,
                forall|k: int| 0 <= k < i ==> self@[k] == 0,
            decreases n - i,
        {
            if self.coords[i] != 0 {
                assert(self@[i as int] != 0);
                return false;
            }
            i = i + 1;
        }
        true
    }
}

impl Clone for Vector {
    fn clone(&self) -> (v: Vector)
        ensures
            v@ == self@,
            v.coords@ == self.coords@,
    {
        let n: usize = self.coords.len();
        let mut coords: Vec<i64> = Vec::new();
        let mut i: usize = 0;
        while i < n
            invariant
                n == self.coords@.len(),
                i <= n,
                coords@ == self.coords@.take(i as int),
            decreases n - i,
        {
            coords.push(self.coords[i]);
            assert(coords@ =~= self.coords@.take(i + 1));
            i = i + 1;
        }
        assert(coords@ =~= self.coords@);
        Vector { coords }
    }
}

} // verus!
