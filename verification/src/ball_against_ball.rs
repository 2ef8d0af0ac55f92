//! The closed-form proximity query between two balls.

use vstd::prelude::*;
use crate::closest_points::ClosestPoints;
use crate::isqrt::{
    ceil_sqrt, ceil_sqrt_u128, lemma_root_exceeds, lemma_square_monotone,
    lemma_square_strictly_monotone,
};
use crate::math::{
    coordinate_gap, delta, distance_squared, is_zero, lemma_coordinate_within_norm,
    lemma_distance_squared_symmetric, lemma_norm_squared_nonnegative, lemma_square_of_magnitude,
    lemma_zero_norm, magnitude, norm_squared, Point,
};

verus! {

/// A ball, known by its radius alone; its centre comes with each query.
#[derive(Debug, PartialEq, Eq, Clone, Copy)]
pub struct Ball {
    pub radius: u32,
}

impl Ball {
    /// The ball of the given radius.
    pub fn new(radius: u32) -> (b: Ball)
        ensures
            b.radius == radius,
    {
        Ball { radius }
    }

    /// The radius of the ball.
    pub fn radius(&self) -> (r: u32)
        ensures
            r == self.radius,
    {
        self.radius
    }
}

/// The part `r / s` of `x`, rounded toward zero.
pub open spec fn toward(r: int, x: int, s: int) -> int {
    if x >= 0 {
        (r * x) / s
    } else {
        -((r * (-x)) / s)
    }
}

/// The point reached from `from` by going the part `r / s` of the way to
/// `to`, each coordinate rounded toward `from`.
pub open spec fn approached(from: Seq<int>, to: Seq<int>, r: int, s: int) -> Seq<int> {
    Seq::new(from.len(), |i: int| from[i] + toward(r, to[i] - from[i], s))
}

/// What the query between two balls reports: with `d` the distance of the
/// centres and `r` the sum of the radii, the balls intersect when
/// `d <= r`, are disjoint when `d > r + margin`, and in between are within
/// the margin. The reported points lie on the segment between the centres,
/// each one radius from its centre, the distance being rounded up and each
/// coordinate toward its centre.
pub open spec fn ball_ball_closest_points(
    center1: Seq<int>,
    radius1: int,
    center2: Seq<int>,
    radius2: int,
    margin: int,
) -> ClosestPoints<Seq<int>> {
    let d2 = distance_squared(center1, center2);
    let r = radius1 + radius2;
    let rm = r + margin;
    if d2 <= r * r {
        ClosestPoints::Intersecting
    } else if d2 <= rm * rm {
        let s = ceil_sqrt(d2);
        ClosestPoints::WithinMargin(
            approached(center1, center2, radius1, s),
            approached(center2, center1, radius2, s),
        )
    } else {
        ClosestPoints::Disjoint
    }
}

/// A part is rounded down by less than one.
proof fn lemma_part_floor(r: int, y: int, s: int)
    by (nonlinear_arith)
    requires
        0 <= r,
        0 < s,
        0 <= y,
    ensures
        0 <= (r * y) / s,
        s * ((r * y) / s) <= r * y,
        r * y < s * ((r * y) / s) + s,
{
}

/// A part of a length is no longer than the length.
proof fn lemma_part_bounds(r: int, y: int, s: int)
    by (nonlinear_arith)
    requires
        0 <= r <= s,
        0 < s,
        0 <= y,
    ensures
        0 <= (r * y) / s <= y,
        s * ((r * y) / s) <= r * y,
        r * y < s * ((r * y) / s) + s,
{
}

/// The squared centre distance decides the outcome alone: at most the
/// squared sum of the radii, the balls intersect; above it and at most the
/// squared sum enlarged by the margin, they are within the margin; above
/// that, disjoint. Exactly one of the three holds, and the outcome changes
/// only where the squared distance passes one of the two thresholds.
pub proof fn lemma_ball_ball_thresholds(
    center1: Seq<int>,
    radius1: int,
    center2: Seq<int>,
    radius2: int,
    margin: int,
)
    requires
        0 <= radius1,
        0 <= radius2,
        0 <= margin,
    ensures
        ({
            let res = ball_ball_closest_points(center1, radius1, center2, radius2, margin);
            let d2 = distance_squared(center1, center2);
            let r = radius1 + radius2;
            let rm = r + margin;
            &&& r * r <= rm * rm
            &&& res is Intersecting <==> d2 <= r * r
            &&& res is WithinMargin <==> r * r < d2 <= rm * rm
            &&& res is Disjoint <==> rm * rm < d2
        }),
{
    lemma_square_monotone(radius1 + radius2, radius1 + radius2 + margin);
}

/// Exchanging the two balls keeps the classification and exchanges the two
/// reported points.
pub proof fn lemma_ball_ball_symmetric(
    center1: Seq<int>,
    radius1: int,
    center2: Seq<int>,
    radius2: int,
    margin: int,
)
    requires
        center1.len() == center2.len(),
    ensures
        ball_ball_closest_points(center2, radius2, center1, radius1, margin)
            == ball_ball_closest_points(center1, radius1, center2, radius2, margin).flipped(),
{
    lemma_distance_squared_symmetric(center1, center2);
}

/// A larger margin never takes a pair further apart: intersecting balls stay
/// intersecting, a pair within the smaller margin is within the larger one
/// with the same points, and only a disjoint pair may change its class.
pub proof fn lemma_ball_ball_margin_monotone(
    center1: Seq<int>,
    radius1: int,
    center2: Seq<int>,
    radius2: int,
    margin: int,
    larger: int,
)
    requires
        0 <= radius1,
        0 <= radius2,
        0 <= margin <= larger,
    ensures
        ({
            let near = ball_ball_closest_points(center1, radius1, center2, radius2, margin);
            let far = ball_ball_closest_points(center1, radius1, center2, radius2, larger);
            &&& near is Intersecting <==> far is Intersecting
            &&& near is WithinMargin ==> far == near
            &&& far is Disjoint ==> near is Disjoint
        }),
{
    lemma_square_monotone(radius1 + radius2 + margin, radius1 + radius2 + larger);
}

/// Balls whose centres coincide intersect, whatever their radii: no
/// direction between the centres is ever asked for.
pub proof fn lemma_coincident_centers_intersect(
    center: Seq<int>,
    radius1: int,
    radius2: int,
    margin: int,
)
    requires
        0 <= radius1,
        0 <= radius2,
    ensures
        ball_ball_closest_points(center, radius1, center, radius2, margin) is Intersecting,
{
    let d = delta(center, center);
    assert(is_zero(d));
    lemma_zero_norm(d);
    lemma_square_of_magnitude(radius1 + radius2);
}

/// Two parts of one length that together are less than the whole leave a
/// gap, and the gap is bounded by what the whole exceeds the parts' sum.
proof fn lemma_parts_gap(r1: int, r2: int, y: int, s: int)
    requires
        0 <= r1,
        0 <= r2,
        r1 + r2 < s,
        0 <= y <= s,
    ensures
        0 <= (r1 * y) / s,
        0 <= (r2 * y) / s,
        (r1 * y) / s + (r2 * y) / s <= y,
        y - (r1 * y) / s - (r2 * y) / s <= s - (r1 + r2) + 1,
{
    let q1 = (r1 * y) / s;
    let q2 = (r2 * y) / s;
    lemma_part_bounds(r1, y, s);
    lemma_part_bounds(r2, y, s);
    assert(q1 + q2 <= y) by (nonlinear_arith)
        requires
            s * q1 <= r1 * y,
            s * q2 <= r2 * y,
            r1 + r2 < s,
            0 <= y,
            0 < s,
    ;
    assert(y - q1 - q2 < s - (r1 + r2) + 2) by (nonlinear_arith)
        requires
            r1 * y < s * q1 + s,
            r2 * y < s * q2 + s,
            r1 + r2 < s,
            0 <= y <= s,
            0 < s,
    ;
}

/// On every axis the two points reported for a pair within the margin lie
/// between the centres, the first nearer to the first centre, and they are
/// no further apart than the rounded-up centre distance exceeds the sum of
/// the radii, plus one unit of rounding. So where the distance comes down to
/// the sum of the radii the two points close up before the outcome turns to
/// intersecting.
pub proof fn lemma_within_margin_points_between(
    center1: Seq<int>,
    radius1: int,
    center2: Seq<int>,
    radius2: int,
    margin: int,
    i: int,
)
    requires
        center1.len() == center2.len(),
        0 <= radius1,
        0 <= radius2,
        0 <= margin,
        0 <= i < center1.len(),
    ensures
        match ball_ball_closest_points(center1, radius1, center2, radius2, margin) {
            ClosestPoints::WithinMargin(p1, p2) => {
                let s = ceil_sqrt(distance_squared(center1, center2));
                &&& p1.len() == center1.len()
                &&& p2.len() == center2.len()
                &&& center1[i] <= center2[i] ==> center1[i] <= p1[i] <= p2[i] <= center2[i]
                &&& center2[i] <= center1[i] ==> center2[i] <= p2[i] <= p1[i] <= center1[i]
                &&& magnitude(p2[i] - p1[i]) <= s - (radius1 + radius2) + 1
            },
            _ => true,
        },
{
    let d2 = distance_squared(center1, center2);
    let r = radius1 + radius2;
    if r * r < d2 {
        let s = ceil_sqrt(d2);
        lemma_root_exceeds(d2, r);
        let x = center2[i] - center1[i];
        let y = magnitude(x);
        lemma_coordinate_within_norm(delta(center1, center2), i);
        lemma_square_of_magnitude(x);
        if s < y {
            lemma_square_strictly_monotone(s, y);
        }
        lemma_parts_gap(radius1, radius2, y, s);
        assert(radius1 * 0 == 0 && radius2 * 0 == 0) by (nonlinear_arith);
    }
}

/// The parts of the coordinates of `d`.
pub open spec fn parts(d: Seq<int>, r: int, s: int) -> Seq<int> {
    Seq::new(d.len(), |i: int| toward(r, d[i], s))
}

/// A part, squared, is the squared part of the square.
proof fn lemma_part_square(r: int, x: int, s: int)
    requires
        0 <= r,
        0 < s,
    ensures
        s * s * (toward(r, x, s) * toward(r, x, s)) <= r * r * (x * x),
{
    let y = magnitude(x);
    let q = (r * y) / s;
    let t = toward(r, x, s);
    lemma_part_floor(r, y, s);
    assert(r * 0 == 0) by (nonlinear_arith);
    assert(t == q || t == -q);
    lemma_square_of_magnitude(q);
    lemma_square_of_magnitude(x);
    assert(t * t == q * q);
    assert(s * s * (q * q) <= r * r * (y * y)) by (nonlinear_arith)
        requires
            0 <= s * q <= r * y,
    ;
}

/// Taking the part `r / s` of every coordinate scales the norm by no more
/// than `r / s`.
proof fn lemma_parts_norm(d: Seq<int>, r: int, s: int)
    requires
        0 <= r,
        0 < s,
    ensures
        s * s * norm_squared(parts(d, r, s)) <= r * r * norm_squared(d),
    decreases d.len(),
{
    if d.len() > 0 {
        let q = parts(d, r, s);
        lemma_parts_norm(d.drop_last(), r, s);
        assert(q.drop_last() =~= parts(d.drop_last(), r, s));
        lemma_part_square(r, d.last(), s);
        let a = norm_squared(q.drop_last());
        let b = q.last() * q.last();
        let c = norm_squared(d.drop_last());
        let e = d.last() * d.last();
        assert(s * s * (a + b) <= r * r * (c + e)) by (nonlinear_arith)
            requires
                s * s * a <= r * r * c,
                s * s * b <= r * r * e,
        ;
    } else {
        assert(s * s * 0 == 0 && r * r * 0 == 0) by (nonlinear_arith);
    }
}

/// Each point reported for a pair within the margin lies in the closed ball
/// it is reported for: no further from the centre than the radius.
pub proof fn lemma_within_margin_points_in_balls(
    center1: Seq<int>,
    radius1: int,
    center2: Seq<int>,
    radius2: int,
    margin: int,
)
    requires
        center1.len() == center2.len(),
        0 <= radius1,
        0 <= radius2,
        0 <= margin,
    ensures
        match ball_ball_closest_points(center1, radius1, center2, radius2, margin) {
            ClosestPoints::WithinMargin(p1, p2) => {
                &&& distance_squared(center1, p1) <= radius1 * radius1
                &&& distance_squared(center2, p2) <= radius2 * radius2
            },
            _ => true,
        },
{
    let d2 = distance_squared(center1, center2);
    let r = radius1 + radius2;
    if r * r < d2 {
        let s = ceil_sqrt(d2);
        lemma_root_exceeds(d2, r);
        lemma_distance_squared_symmetric(center1, center2);
        lemma_approach_stays_within(center1, center2, radius1, s);
        lemma_approach_stays_within(center2, center1, radius2, s);
    }
}

/// The parts `r / s` of the coordinates of a vector no longer than `s` make
/// a vector no longer than `r`.
pub proof fn lemma_parts_within_radius(d: Seq<int>, r: int, s: int)
    requires
        0 <= r,
        0 < s,
        norm_squared(d) <= s * s,
    ensures
        norm_squared(parts(d, r, s)) <= r * r,
{
    let q = parts(d, r, s);
    lemma_parts_norm(d, r, s);
    lemma_norm_squared_nonnegative(q);
    let n = norm_squared(q);
    let m = norm_squared(d);
    assert(n <= r * r) by (nonlinear_arith)
        requires
            s * s * n <= r * r * m,
            m <= s * s,
            0 < s,
            0 <= n,
            0 <= r,
    ;
}

/// Going `r / s` of the way to a point no further than `s` away ends no
/// further than `r` from the start.
proof fn lemma_approach_stays_within(from: Seq<int>, to: Seq<int>, r: int, s: int)
    requires
        from.len() == to.len(),
        0 <= r,
        0 < s,
        distance_squared(from, to) <= s * s,
    ensures
        distance_squared(from, approached(from, to, r, s)) <= r * r,
{
    assert(delta(from, approached(from, to, r, s)) =~= parts(delta(from, to), r, s));
    lemma_parts_within_radius(delta(from, to), r, s);
}

/// Moves `radius / span` of the way from `from` to `to`.
fn approach(from: &Point, to: &Point, radius: u32, span: u128) -> (p: Point)
    requires
        from@.len() == to@.len(),
        radius < span,
    ensures
        p@ == approached(from@, to@, radius as int, span as int),
{
    let n: usize = from.coords.len();
    let mut coords: Vec<i32> = Vec::new();
    let mut i: usize = 0;
    while i < n
        invariant
            n == from.coords@.len(),
            n == to.coords@.len(),
            radius < span,
            i <= n,
            coords@.len() == i,
            forall|k: int|
                0 <= k < i ==> coords@[k] == from@[k] + toward(
                    radius as int,
                    to@[k] - from@[k],
                    span as int,
                ),
        decreases n - i,
    {
        let a: i32 = from.coords[i];
        let b: i32 = to.coords[i];
        let gap: u64 = coordinate_gap(a, b);
        proof {
            lemma_part_bounds(radius as int, gap as int, span as int);
            assert(radius * gap <= 0xffff_ffff * 0xffff_ffff) by (nonlinear_arith)
                requires
                    0 <= radius <= 0xffff_ffff,
                    0 <= gap <= 0xffff_ffff,
            ;
        }
        let part: u128 = (radius as u128 * gap as u128) / span;
        let c: i64 = if b >= a {
            a as i64 + part as i64
        } else {
            a as i64 - part as i64
        };
        assert(c == a + toward(radius as int, b - a, span as int)) by {
            assert(radius * 0 == 0) by (nonlinear_arith);
        }
        coords.push(c as i32);
        i = i + 1;
    }
    let p = Point { coords };
    assert(p@ =~= approached(from@, to@, radius as int, span as int));
    p
}

/// The proximity query between two balls.
///
/// Compares the squared distance of the centres with the squared sum of the
/// radii, alone and enlarged by `margin`; only a pair within the margin has
/// its distance rooted and its nearest points computed.
pub fn ball_against_ball(
    center1: &Point,
    b1: &Ball,
    center2: &Point,
    b2: &Ball,
    margin: u64,
) -> (res: ClosestPoints<Point>)
    requires
        center1@.len() == center2@.len(),
    ensures
        res@ == ball_ball_closest_points(
            center1@,
            b1.radius as int,
            center2@,
            b2.radius as int,
            margin as int,
        ),
{
    let r1: u32 = b1.radius();
    let r2: u32 = b2.radius();
    let distance_squared: u128 = center1.distance_squared(center2);
    let sum_radius: u128 = r1 as u128 + r2 as u128;
    let sum_radius_with_error: u128 = sum_radius + margin as u128;
    proof {
        lemma_square_monotone(sum_radius as int, sum_radius_with_error as int);
        lemma_square_monotone(sum_radius as int, 0x2_0000_0000);
        if sum_radius_with_error > 0xffff_ffff_ffff_ffff {
            lemma_square_monotone(0x1_0000_0000_0000_0000, sum_radius_with_error as int);
        } else {
            lemma_square_monotone(sum_radius_with_error as int, 0xffff_ffff_ffff_ffff);
        }
    }
    // A reach beyond 64 bits has a square beyond any squared distance.
    if sum_radius_with_error > 0xffff_ffff_ffff_ffff || distance_squared
        <= sum_radius_with_error * sum_radius_with_error {
        if distance_squared <= sum_radius * sum_radius {
            ClosestPoints::Intersecting
        } else {
            let span: u128 = ceil_sqrt_u128(distance_squared);
            proof {
                lemma_root_exceeds(distance_squared as int, sum_radius as int);
                lemma_distance_squared_symmetric(center1@, center2@);
            }
            let p1 = approach(center1, center2, r1, span);
            let p2 = approach(center2, center1, r2, span);
            ClosestPoints::WithinMargin(p1, p2)
        }
    } else {
        ClosestPoints::Disjoint
    }
}

} // verus!
