//! The proximity query between two shapes that are known by their support
//! functions alone.
//!
//! The iterative distance engine is supplied by the caller. What is decided
//! here is how the engine is started (which simplex it works on, from which
//! support point of the difference of the shapes) and what its report means
//! for the pair.

use vstd::prelude::*;
use crate::closest_points::{ClosestPoints, GJKResult};
use crate::math::{delta, is_zero, negated, Point, Vector};
use crate::shape::{cso_support, cso_support_point, negatable, AnnotatedPoint, SupportMap};

verus! {

/// The simplex representations the engine can be asked to work on.
#[derive(Debug, PartialEq, Eq, Clone, Copy, Structural)]
pub enum SimplexKind {
    /// Specialised for the plane.
    Voronoi2,
    /// Specialised for space.
    Voronoi3,
    /// Works in any dimension.
    Johnson,
}

/// The simplex representation used in the given dimension.
pub open spec fn simplex_for(dimension: nat) -> SimplexKind {
    if dimension == 2 {
        SimplexKind::Voronoi2
    } else if dimension == 3 {
        SimplexKind::Voronoi3
    } else {
        SimplexKind::Johnson
    }
}

/// The direction along which the engine first looks: the one asked for, or,
/// where none is, the displacement from the second placement to the first;
/// and the first axis where that would be the zero vector.
pub open spec fn initial_direction(
    m1: Seq<int>,
    m2: Seq<int>,
    init_dir: Option<Seq<int>>,
) -> Seq<int> {
    let dir = match init_dir {
        None => delta(m2, m1),
        Some(dir) => dir,
    };
    if is_zero(dir) {
        dir.update(0, 1)
    } else {
        dir
    }
}

/// The direction asked for, as a sequence of coordinates.
pub open spec fn direction_view(init_dir: Option<Vector>) -> Option<Seq<int>> {
    match init_dir {
        None => None,
        Some(dir) => Some(dir@),
    }
}

/// What the engine's report means for the pair. A report of mere proximity
/// carries no points and has no meaning here.
pub open spec fn closest_points_of<P, V>(result: GJKResult<(P, P), V>) -> Option<
    ClosestPoints<P>,
> {
    match result {
        GJKResult::Projection(points, _) => Some(ClosestPoints::WithinMargin(points.0, points.1)),
        GJKResult::NoIntersection(_) => Some(ClosestPoints::Disjoint),
        GJKResult::Intersection => Some(ClosestPoints::Intersecting),
        GJKResult::Proximity(_) => None,
    }
}

/// The engine's report seen from the second shape: the points exchanged and
/// the directions reversed.
pub open spec fn flipped_report(
    result: GJKResult<(Seq<int>, Seq<int>), Seq<int>>,
) -> GJKResult<(Seq<int>, Seq<int>), Seq<int>> {
    match result {
        GJKResult::Projection(points, dir) => GJKResult::Projection(
            (points.1, points.0),
            negated(dir),
        ),
        GJKResult::NoIntersection(dir) => GJKResult::NoIntersection(negated(dir)),
        GJKResult::Intersection => GJKResult::Intersection,
        GJKResult::Proximity(dir) => GJKResult::Proximity(negated(dir)),
    }
}

/// The initial direction is never the zero vector.
pub proof fn lemma_initial_direction_nonzero(
    m1: Seq<int>,
    m2: Seq<int>,
    init_dir: Option<Seq<int>>,
)
    requires
        1 <= m1.len() == m2.len(),
        init_dir matches Some(dir) ==> 1 <= dir.len(),
    ensures
        !is_zero(initial_direction(m1, m2, init_dir)),
        initial_direction(m1, m2, init_dir).len() == match init_dir {
            None => m1.len(),
            Some(dir) => dir.len(),
        },
{
    let dir = match init_dir {
        None => delta(m2, m1),
        Some(dir) => dir,
    };
    if is_zero(dir) {
        assert(dir.update(0, 1)[0] == 1);
    }
}

/// Exchanging two placements that differ reverses the initial direction;
/// two placements that coincide are given the first axis either way.
pub proof fn lemma_initial_direction_antisymmetric(m1: Seq<int>, m2: Seq<int>)
    requires
        m1.len() == m2.len(),
    ensures
        !is_zero(delta(m2, m1)) ==> initial_direction(m2, m1, None) == negated(
            initial_direction(m1, m2, None),
        ),
        is_zero(delta(m2, m1)) ==> initial_direction(m2, m1, None) == initial_direction(
            m1,
            m2,
            None,
        ),
{
    let forth = delta(m2, m1);
    let back = delta(m1, m2);
    assert(back =~= negated(forth));
    assert(forth =~= negated(back));
    if is_zero(forth) {
        assert forall|i: int| 0 <= i < back.len() implies back[i] == 0 by {
            assert(forth[i] == 0);
        }
        assert(back =~= forth);
    } else {
        let i = choose|i: int| 0 <= i < forth.len() && forth[i] != 0;
        assert(back[i] != 0);
    }
}

/// Reading the report from the second shape exchanges the reported points
/// and keeps the classification.
pub proof fn lemma_flipped_report(result: GJKResult<(Seq<int>, Seq<int>), Seq<int>>)
    ensures
        closest_points_of(flipped_report(result)) == match closest_points_of(result) {
            None => None,
            Some(points) => Some(points.flipped()),
        },
{
}

/// Picks the simplex representation for the given dimension.
pub fn simplex_for_dimension(dimension: usize) -> (kind: SimplexKind)
    ensures
        kind == simplex_for(dimension as nat),
{
    if dimension == 2 {
        SimplexKind::Voronoi2
    } else if dimension == 3 {
        SimplexKind::Voronoi3
    } else {
        SimplexKind::Johnson
    }
}

/// Chooses the direction along which the engine first looks.
pub fn choose_initial_direction(m1: &Point, m2: &Point, init_dir: Option<Vector>) -> (dir: Vector)
    requires
        1 <= m1@.len() == m2@.len(),
        init_dir matches Some(d) ==> d@.len() == m1@.len(),
    ensures
        dir@ == initial_direction(m1@, m2@, direction_view(init_dir)),
        dir@.len() == m1@.len(),
        !is_zero(dir@),
{
    let mut dir = match init_dir {
        None => m1.minus(m2),
        Some(dir) => dir,
    };
    let ghost asked = dir@;
    proof {
        lemma_initial_direction_nonzero(m1@, m2@, direction_view(init_dir));
    }
    if dir.is_zero() {
        dir.coords[0] = 1;
        assert(dir@ =~= asked.update(0, 1));
    }
    dir
}

/// Reads the engine's report as the relation of the pair.
pub fn closest_points_from<P, V>(result: GJKResult<(P, P), V>) -> (res: ClosestPoints<P>)
    requires
        !(result is Proximity),
    ensures
        Some(res) == closest_points_of(result),
{
    match result {
        GJKResult::Projection(points, _) => ClosestPoints::WithinMargin(points.0, points.1),
        GJKResult::NoIntersection(_) => ClosestPoints::Disjoint,
        GJKResult::Intersection => ClosestPoints::Intersecting,
        GJKResult::Proximity(_) => ClosestPoints::Disjoint,
    }
}

/// Starts the engine on a pair of support-mapped shapes and hands back its
/// report unread.
///
/// `m1` and `m2` are the translations of the two placements. `engine` holds
/// the simplex; it is called once, with the support point of the difference
/// of the shapes along the initial direction, to which it resets its
/// simplex, and with the bound beyond which it may stop.
pub fn support_map_against_support_map_with_params<G1, G2, E>(
    m1: &Point,
    g1: &G1,
    m2: &Point,
    g2: &G2,
    prediction: u64,
    init_dir: Option<Vector>,
    engine: E,
) -> (res: GJKResult<(Point, Point), Vector>) where
    G1: SupportMap,
    G2: SupportMap,
    E: FnOnce(AnnotatedPoint<Point, Vector>, u64) -> GJKResult<(Point, Point), Vector>,

    requires
        1 <= m1@.len() == m2@.len(),
        init_dir matches Some(d) ==> d@.len() == m1@.len() && negatable(d@),
        g1.admits(m1@, initial_direction(m1@, m2@, direction_view(init_dir))),
        g2.admits(m2@, negated(initial_direction(m1@, m2@, direction_view(init_dir)))),
        forall|start: AnnotatedPoint<Point, Vector>|
            start@ == cso_support(
                m1@,
                *g1,
                m2@,
                *g2,
                initial_direction(m1@, m2@, direction_view(init_dir)),
            ) ==> call_requires(engine, (start, prediction)),
    ensures
        exists|start: AnnotatedPoint<Point, Vector>|
            start@ == cso_support(
                m1@,
                *g1,
                m2@,
                *g2,
                initial_direction(m1@, m2@, direction_view(init_dir)),
            ) && call_ensures(engine, (start, prediction), res),
{
    let dir = choose_initial_direction(m1, m2, init_dir);
    proof {
        assert forall|i: int| 0 <= i < dir@.len() implies dir@[i] > i64::MIN by {
            match init_dir {
                None => {
                    assert(delta(m2@, m1@)[i] == m1@[i] - m2@[i]);
                },
                Some(d) => {
                    assert(d@[i] > i64::MIN);
                },
            }
        }
    }
    let start = cso_support_point(m1, g1, m2, g2, dir);
    engine(start, prediction)
}

/// The proximity query between two support-mapped shapes.
///
/// Picks the simplex representation by the dimension of the placements,
/// starts the engine from the support point along the displacement between
/// them and reads its report. An engine that may answer with mere proximity
/// is not accepted.
pub fn support_map_against_support_map<G1, G2, E>(
    m1: &Point,
    g1: &G1,
    m2: &Point,
    g2: &G2,
    prediction: u64,
    engine: E,
) -> (res: ClosestPoints<Point>) where
    G1: SupportMap,
    G2: SupportMap,
    E: FnOnce(SimplexKind, AnnotatedPoint<Point, Vector>, u64) -> GJKResult<
        (Point, Point),
        Vector,
    >,

    requires
        1 <= m1@.len() == m2@.len(),
        g1.admits(m1@, initial_direction(m1@, m2@, None)),
        g2.admits(m2@, negated(initial_direction(m1@, m2@, None))),
        forall|start: AnnotatedPoint<Point, Vector>|
            start@ == cso_support(m1@, *g1, m2@, *g2, initial_direction(m1@, m2@, None))
                ==> call_requires(engine, (simplex_for(m1@.len()), start, prediction)),
        forall|start: AnnotatedPoint<Point, Vector>, out: GJKResult<(Point, Point), Vector>|
            start@ == cso_support(m1@, *g1, m2@, *g2, initial_direction(m1@, m2@, None))
                && call_ensures(engine, (simplex_for(m1@.len()), start, prediction), out) ==> !(out
                is Proximity),
    ensures
        exists|start: AnnotatedPoint<Point, Vector>, out: GJKResult<(Point, Point), Vector>|
            start@ == cso_support(m1@, *g1, m2@, *g2, initial_direction(m1@, m2@, None))
                && call_ensures(engine, (simplex_for(m1@.len()), start, prediction), out)
                && Some(res) == closest_points_of(out),
{
    let kind = simplex_for_dimension(m1.dimension());
    let run = move |start: AnnotatedPoint<Point, Vector>, bound: u64| -> (out: GJKResult<
        (Point, Point),
        Vector,
    >)
        requires
            call_requires(engine, (kind, start, bound)),
        ensures
            call_ensures(engine, (kind, start, bound), out),
        { engine(kind, start, bound) };
    let out = support_map_against_support_map_with_params(m1, g1, m2, g2, prediction, None, run);
    closest_points_from(out)
}

} // verus!
