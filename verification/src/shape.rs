//! Shapes that are known by their support function, and the support point
//! of the difference of two of them.

use vstd::prelude::*;
use crate::ball_against_ball::{
    approached, ball_ball_closest_points, lemma_parts_within_radius, parts, toward, Ball,
};
use crate::closest_points::ClosestPoints;
use crate::isqrt::{
    ceil_sqrt, ceil_sqrt_u128, is_ceil_sqrt, lemma_least_root_exists,
    lemma_square_strictly_monotone,
};
use crate::math::{
    delta, is_zero, lemma_coordinate_within_norm, lemma_distance_squared_symmetric,
    lemma_norm_squared_nonnegative, lemma_square_of_magnitude, lemma_zero_norm, negated,
    norm_squared, Point, Vector,
};

verus! {

/// A shape that can name, for a placement and a direction, one of its points
/// that lies farthest along the direction.
pub trait SupportMap {
    /// Whether the shape, placed at `m`, can be asked along `dir`: its
    /// points stay on the lattice and the direction is within its means.
    spec fn admits(&self, m: Seq<int>, dir: Seq<int>) -> bool;

    /// The support point of the shape, placed at `m`, along `dir`.
    spec fn support(&self, m: Seq<int>, dir: Seq<int>) -> Seq<int>;

    /// Computes the support point. The direction is never the zero vector.
    fn support_point(&self, m: &Point, dir: &Vector) -> (p: Point)
        requires
            m@.len() == dir@.len(),
            !is_zero(dir@),
            self.admits(m@, dir@),
        ensures
            p@ == self.support(m@, dir@),
            p@.len() == m@.len(),
    ;
}

/// A point of the difference of two shapes, with the point of each shape
/// that it is the difference of.
#[derive(Debug, PartialEq, Eq)]
pub struct AnnotatedPoint<P, V> {
    pub orig1: P,
    pub orig2: P,
    pub point: V,
}

impl<P: View, V: View> View for AnnotatedPoint<P, V> {
    type V = AnnotatedPoint<P::V, V::V>;

    open spec fn view(&self) -> AnnotatedPoint<P::V, V::V> {
        AnnotatedPoint { orig1: self.orig1@, orig2: self.orig2@, point: self.point@ }
    }
}

/// Every coordinate of `v` has a negation of 64 bits.
pub open spec fn negatable(v: Seq<int>) -> bool {
    forall|i: int| 0 <= i < v.len() ==> v[i] > i64::MIN
}

/// The support point of the difference of two shapes along `dir`: the
/// support point of the first along `dir`, less that of the second against
/// it.
pub open spec fn cso_support<G1: SupportMap, G2: SupportMap>(
    m1: Seq<int>,
    g1: G1,
    m2: Seq<int>,
    g2: G2,
    dir: Seq<int>,
) -> AnnotatedPoint<Seq<int>, Seq<int>> {
    let orig1 = g1.support(m1, dir);
    let orig2 = g2.support(m2, negated(dir));
    AnnotatedPoint { orig1, orig2, point: delta(orig2, orig1) }
}

/// What is asked of two placed shapes and a direction before the support
/// point of their difference is computed.
pub open spec fn cso_admits<G1: SupportMap, G2: SupportMap>(
    m1: Seq<int>,
    g1: G1,
    m2: Seq<int>,
    g2: G2,
    dir: Seq<int>,
) -> bool {
    &&& m1.len() == dir.len()
    &&& m2.len() == dir.len()
    &&& !is_zero(dir)
    &&& negatable(dir)
    &&& g1.admits(m1, dir)
    &&& g2.admits(m2, negated(dir))
}

/// The reverse of a vector that is not zero is not zero.
pub proof fn lemma_negated_nonzero(v: Seq<int>)
    ensures
        is_zero(negated(v)) == is_zero(v),
        negated(v).len() == v.len(),
{
    if is_zero(v) {
        assert forall|i: int| 0 <= i < negated(v).len() implies negated(v)[i] == 0 by {
            assert(v[i] == 0);
        }
    }
    if is_zero(negated(v)) {
        assert forall|i: int| 0 <= i < v.len() implies v[i] == 0 by {
            assert(negated(v)[i] == 0);
        }
    }
}

impl Vector {
    /// The vector reversed.
    pub fn reversed(&self) -> (v: Vector)
        requires
            negatable(self@),
        ensures
            v@ == negated(self@),
    {
        let n: usize = self.coords.len();
        let mut coords: Vec<i64> = Vec::new();
        let mut i: usize = 0;
        while i < n
            invariant
                n == self.coords@.len(),
                negatable(self@),
                i <= n,
                coords@.len() == i,
                forall|k: int| 0 <= k < i ==> coords@[k] == -self.coords@[k],
            decreases n - i,
        {
            assert(self@[i as int] > i64::MIN);
            coords.push(-self.coords[i]);
            i = i + 1;
        }
        let v = Vector { coords };
        assert(v@ =~= negated(self@));
        v
    }
}

/// Exchanging the two shapes and reversing the direction exchanges the two
/// origins of the support point and reverses the point itself.
pub proof fn lemma_cso_support_exchanged<G1: SupportMap, G2: SupportMap>(
    m1: Seq<int>,
    g1: G1,
    m2: Seq<int>,
    g2: G2,
    dir: Seq<int>,
)
    requires
        g1.support(m1, dir).len() == g2.support(m2, negated(dir)).len(),
    ensures
        cso_support(m2, g2, m1, g1, negated(dir)) == (AnnotatedPoint {
            orig1: cso_support(m1, g1, m2, g2, dir).orig2,
            orig2: cso_support(m1, g1, m2, g2, dir).orig1,
            point: negated(cso_support(m1, g1, m2, g2, dir).point),
        }),
{
    assert(negated(negated(dir)) =~= dir);
    let there = cso_support(m1, g1, m2, g2, dir);
    assert(delta(there.orig1, there.orig2) =~= negated(there.point));
}

/// Computes the support point of the difference of two placed shapes along
/// `dir`.
pub fn cso_support_point<G1: SupportMap, G2: SupportMap>(
    m1: &Point,
    g1: &G1,
    m2: &Point,
    g2: &G2,
    dir: Vector,
) -> (res: AnnotatedPoint<Point, Vector>)
    requires
        cso_admits(m1@, *g1, m2@, *g2, dir@),
    ensures
        res@ == cso_support(m1@, *g1, m2@, *g2, dir@),
{
    let back = dir.reversed();
    proof {
        lemma_negated_nonzero(dir@);
    }
    let orig1 = g1.support_point(m1, &dir);
    let orig2 = g2.support_point(m2, &back);
    let point = orig1.minus(&orig2);
    AnnotatedPoint { orig1, orig2, point }
}

/// A box with its sides along the axes, known by half the length of each
/// side.
#[derive(Debug, PartialEq, Eq)]
pub struct Cuboid {
    pub half_extents: Vec<u32>,
}

/// The sum of the products of the coordinates of `a` and `b`.
pub open spec fn dot(a: Seq<int>, b: Seq<int>) -> int
    decreases a.len(),
{
    if a.len() == 0 {
        0
    } else {
        dot(a.drop_last(), b.drop_last()) + a.last() * b.last()
    }
}

impl Cuboid {
    /// The box with the given half sides.
    pub fn new(half_extents: Vec<u32>) -> (c: Cuboid)
        ensures
            c.half_extents@ == half_extents@,
    {
        Cuboid { half_extents }
    }

    /// Half the length of each side.
    pub open spec fn half(&self) -> Seq<int> {
        Seq::new(self.half_extents@.len(), |i: int| self.half_extents@[i] as int)
    }

    /// `q` is a point of the box placed at `m`.
    pub open spec fn contains(&self, m: Seq<int>, q: Seq<int>) -> bool {
        &&& q.len() == m.len()
        &&& forall|i: int|
            0 <= i < m.len() ==> m[i] - self.half()[i] <= #[trigger] q[i] <= m[i] + self.half()[i]
    }
}

impl SupportMap for Cuboid {
    /// The box has the dimension of the placement and its corners are on
    /// the lattice.
    open spec fn admits(&self, m: Seq<int>, dir: Seq<int>) -> bool {
        &&& self.half().len() == m.len()
        &&& forall|i: int|
            0 <= i < m.len() ==> i32::MIN <= m[i] - #[trigger] self.half()[i] && m[i]
                + self.half()[i] <= i32::MAX
    }

    /// The corner that lies, on every axis, on the side the direction
    /// points to, the upper side where it points to neither.
    open spec fn support(&self, m: Seq<int>, dir: Seq<int>) -> Seq<int> {
        Seq::new(
            m.len(),
            |i: int|
                if dir[i] >= 0 {
                    m[i] + self.half()[i]
                } else {
                    m[i] - self.half()[i]
                },
        )
    }

    fn support_point(&self, m: &Point, dir: &Vector) -> (p: Point) {
        let n: usize = m.coords.len();
        let mut coords: Vec<i32> = Vec::new();
        let mut i: usize = 0;
        while i < n
            invariant
                n == m.coords@.len(),
                n == dir.coords@.len(),
                self.admits(m@, dir@),
                i <= n,
                coords@.len() == i,
                forall|k: int| 0 <= k < i ==> coords@[k] == self.support(m@, dir@)[k],
            decreases n - i,
        {
            assert(self.half()[i as int] == self.half_extents@[i as int]);
            let c: i64 = if dir.coords[i] >= 0 {
                m.coords[i] as i64 + self.half_extents[i] as i64
            } else {
                m.coords[i] as i64 - self.half_extents[i] as i64
            };
            coords.push(c as i32);
            i = i + 1;
        }
        let p = Point { coords };
        assert(p@ =~= self.support(m@, dir@));
        p
    }
}

/// On one axis, the side the direction points to is the farther one.
proof fn lemma_farther_side(m: int, h: int, d: int, q: int)
    by (nonlinear_arith)
    requires
        m - h <= q <= m + h,
    ensures
        q * d <= (if d >= 0 {
            m + h
        } else {
            m - h
        }) * d,
{
}

/// The support point of a box is a point of the box, and no point of the
/// box lies farther along the direction.
pub proof fn lemma_cuboid_support_is_farthest(
    cuboid: Cuboid,
    m: Seq<int>,
    dir: Seq<int>,
    q: Seq<int>,
)
    requires
        cuboid.half().len() == m.len(),
        dir.len() == m.len(),
        cuboid.contains(m, q),
    ensures
        cuboid.contains(m, cuboid.support(m, dir)),
        dot(q, dir) <= dot(cuboid.support(m, dir), dir),
{
    let s = cuboid.support(m, dir);
    assert forall|i: int| 0 <= i < m.len() implies m[i] - cuboid.half()[i] <= #[trigger] s[i]
        <= m[i] + cuboid.half()[i] by {
        assert(cuboid.half()[i] >= 0);
    }
    lemma_dot_dominated(q, s, dir, m, cuboid.half());
}

/// Where on every axis `s` is on the side of the box that `dir` points to
/// and `q` is in the box, `s` lies at least as far along `dir` as `q`.
proof fn lemma_dot_dominated(q: Seq<int>, s: Seq<int>, dir: Seq<int>, m: Seq<int>, h: Seq<int>)
    requires
        q.len() == m.len(),
        s.len() == m.len(),
        dir.len() == m.len(),
        h.len() == m.len(),
        forall|i: int| 0 <= i < m.len() ==> m[i] - h[i] <= #[trigger] q[i] <= m[i] + h[i],
        forall|i: int|
            0 <= i < m.len() ==> #[trigger] s[i] == if dir[i] >= 0 {
                m[i] + h[i]
            } else {
                m[i] - h[i]
            },
    ensures
        dot(q, dir) <= dot(s, dir),
    decreases m.len(),
{
    if m.len() > 0 {
        let k = m.len() - 1;
        assert(m[k] - h[k] <= q[k] <= m[k] + h[k]);
        assert(s[k] == if dir[k] >= 0 {
            m[k] + h[k]
        } else {
            m[k] - h[k]
        });
        lemma_farther_side(m[k], h[k], dir[k], q[k]);
        assert forall|i: int| 0 <= i < k implies m.drop_last()[i] - h.drop_last()[i]
            <= #[trigger] q.drop_last()[i] <= m.drop_last()[i] + h.drop_last()[i] by {
            assert(m[i] - h[i] <= q[i] <= m[i] + h[i]);
        }
        assert forall|i: int| 0 <= i < k implies #[trigger] s.drop_last()[i] == if dir.drop_last()[i]
            >= 0 {
            m.drop_last()[i] + h.drop_last()[i]
        } else {
            m.drop_last()[i] - h.drop_last()[i]
        } by {
            assert(s[i] == if dir[i] >= 0 {
                m[i] + h[i]
            } else {
                m[i] - h[i]
            });
        }
        lemma_dot_dominated(
            q.drop_last(),
            s.drop_last(),
            dir.drop_last(),
            m.drop_last(),
            h.drop_last(),
        );
    }
}

impl SupportMap for Ball {
    /// The ball stays on the lattice, and no coordinate of the direction
    /// takes more than 32 bits.
    open spec fn admits(&self, m: Seq<int>, dir: Seq<int>) -> bool {
        &&& forall|i: int|
            0 <= i < m.len() ==> i32::MIN <= #[trigger] m[i] - self.radius && m[i] + self.radius
                <= i32::MAX
        &&& forall|i: int| 0 <= i < dir.len() ==> -0xffff_ffff <= #[trigger] dir[i] <= 0xffff_ffff
    }

    /// The point one radius from the centre along the direction, the length
    /// of the direction rounded up and each coordinate toward the centre.
    open spec fn support(&self, m: Seq<int>, dir: Seq<int>) -> Seq<int> {
        let s = ceil_sqrt(norm_squared(dir));
        Seq::new(m.len(), |i: int| m[i] + toward(self.radius as int, dir[i], s))
    }

    fn support_point(&self, m: &Point, dir: &Vector) -> (p: Point) {
        let n: usize = m.coords.len();
        let mut sum: u128 = 0;
        let mut i: usize = 0;
        while i < n
            invariant
                n == m.coords@.len(),
                n == dir.coords@.len(),
                self.admits(m@, dir@),
                i <= n,
                sum == norm_squared(dir@.take(i as int)),
                sum <= i * 0xffff_fffe_0000_0001,
            decreases n - i,
        {
            let d: i64 = dir.coords[i];
            assert(-0xffff_ffff <= dir@[i as int] <= 0xffff_ffff);
            let a: u128 = if d < 0 {
                (-d) as u128
            } else {
                d as u128
            };
            proof {
                lemma_square_of_magnitude(d as int);
                assert(a * a <= 0xffff_fffe_0000_0001) by (nonlinear_arith)
                    requires
                        0 <= a <= 0xffff_ffff,
                ;
                assert(dir@.take(i + 1).drop_last() =~= dir@.take(i as int));
            }
            sum = sum + a * a;
            i = i + 1;
        }
        assert(dir@.take(n as int) =~= dir@);
        let span: u128 = ceil_sqrt_u128(sum);
        proof {
            lemma_zero_norm(dir@);
            lemma_norm_squared_nonnegative(dir@);
            assert(0 < span) by (nonlinear_arith)
                requires
                    0 < sum <= span * span,
            ;
        }
        let r: u32 = self.radius;
        let mut coords: Vec<i32> = Vec::new();
        let mut i: usize = 0;
        while i < n
            invariant
                n == m.coords@.len(),
                n == dir.coords@.len(),
                self.admits(m@, dir@),
                r == self.radius,
                span == ceil_sqrt(norm_squared(dir@)),
                is_ceil_sqrt(norm_squared(dir@), span as int),
                0 < span,
                i <= n,
                coords@.len() == i,
                forall|k: int| 0 <= k < i ==> coords@[k] == self.support(m@, dir@)[k],
            decreases n - i,
        {
            let d: i64 = dir.coords[i];
            assert(-0xffff_ffff <= dir@[i as int] <= 0xffff_ffff);
            assert(i32::MIN <= m@[i as int] - self.radius && m@[i as int] + self.radius
                <= i32::MAX);
            let a: u128 = if d < 0 {
                (-d) as u128
            } else {
                d as u128
            };
            proof {
                lemma_coordinate_within_norm(dir@, i as int);
                lemma_square_of_magnitude(d as int);
                if span < a {
                    lemma_square_strictly_monotone(span as int, a as int);
                }
                assert(r * a <= 0xffff_ffff * 0xffff_ffff) by (nonlinear_arith)
                    requires
                        0 <= r <= 0xffff_ffff,
                        0 <= a <= 0xffff_ffff,
                ;
                lemma_scaled_part(r as int, a as int, span as int);
                assert(r * 0 == 0) by (nonlinear_arith);
            }
            let part: u128 = (r as u128 * a) / span;
            let c: i64 = if d >= 0 {
                m.coords[i] as i64 + part as i64
            } else {
                m.coords[i] as i64 - part as i64
            };
            assert(c == m@[i as int] + toward(r as int, d as int, span as int));
            coords.push(c as i32);
            i = i + 1;
        }
        let p = Point { coords };
        assert(p@ =~= self.support(m@, dir@));
        p
    }
}

/// The shapes that the narrow phase tells apart.
#[derive(Debug, PartialEq, Eq)]
pub enum Shape {
    Ball(Ball),
    Cuboid(Cuboid),
}

impl SupportMap for Shape {
    open spec fn admits(&self, m: Seq<int>, dir: Seq<int>) -> bool {
        match *self {
            Shape::Ball(ball) => ball.admits(m, dir),
            Shape::Cuboid(cuboid) => cuboid.admits(m, dir),
        }
    }

    open spec fn support(&self, m: Seq<int>, dir: Seq<int>) -> Seq<int> {
        match *self {
            Shape::Ball(ball) => ball.support(m, dir),
            Shape::Cuboid(cuboid) => cuboid.support(m, dir),
        }
    }

    fn support_point(&self, m: &Point, dir: &Vector) -> (p: Point) {
        match self {
            Shape::Ball(ball) => ball.support_point(m, dir),
            Shape::Cuboid(cuboid) => cuboid.support_point(m, dir),
        }
    }
}

/// The part `a / s` of `r`, for `a` no more than `s`, is no more than `r`.
proof fn lemma_scaled_part(r: int, a: int, s: int)
    by (nonlinear_arith)
    requires
        0 <= r,
        0 <= a <= s,
        0 < s,
    ensures
        0 <= (r * a) / s <= r,
{
}

/// The two points that the closed form reports for balls within the margin
/// are the support points of the balls toward each other: the two origins of
/// the support point of their difference along the displacement from the
/// first centre to the second, which is where an engine that has found that
/// direction ends.
pub proof fn lemma_ball_points_are_support_points(
    center1: Seq<int>,
    b1: Ball,
    center2: Seq<int>,
    b2: Ball,
    margin: int,
)
    requires
        center1.len() == center2.len(),
    ensures
        match ball_ball_closest_points(
            center1,
            b1.radius as int,
            center2,
            b2.radius as int,
            margin,
        ) {
            ClosestPoints::WithinMargin(p1, p2) => {
                let toward_second = cso_support(
                    center1,
                    b1,
                    center2,
                    b2,
                    delta(center1, center2),
                );
                p1 == toward_second.orig1 && p2 == toward_second.orig2
            },
            _ => true,
        },
{
    let dir = delta(center1, center2);
    let s = ceil_sqrt(norm_squared(dir));
    lemma_distance_squared_symmetric(center1, center2);
    assert(negated(dir) =~= delta(center2, center1));
    assert(approached(center1, center2, b1.radius as int, s) =~= b1.support(center1, dir));
    assert(approached(center2, center1, b2.radius as int, s) =~= b2.support(
        center2,
        negated(dir),
    ));
}

/// The support point of a ball lies in the closed ball.
pub proof fn lemma_ball_support_in_ball(ball: Ball, m: Seq<int>, dir: Seq<int>)
    requires
        m.len() == dir.len(),
        !is_zero(dir),
    ensures
        norm_squared(delta(m, ball.support(m, dir))) <= ball.radius * ball.radius,
{
    let s = ceil_sqrt(norm_squared(dir));
    lemma_zero_norm(dir);
    lemma_norm_squared_nonnegative(dir);
    let n = norm_squared(dir);
    assert(n <= n * n) by (nonlinear_arith)
        requires
            0 <= n,
    ;
    lemma_least_root_exists(n, n);
    assert(0 < s) by (nonlinear_arith)
        requires
            0 < n <= s * s,
            0 <= s,
    ;
    assert(delta(m, ball.support(m, dir)) =~= parts(dir, ball.radius as int, s));
    lemma_parts_within_radius(dir, ball.radius as int, s);
}

} // verus!
