use lattice_collide::ball_against_ball::{ball_against_ball, Ball};
use lattice_collide::closest_points::{ClosestPoints, GJKResult};
use lattice_collide::math::{coordinate_gap, Point, Vector};
use lattice_collide::narrow_phase::{
    CollisionDetector, CollisionDispatcher, CollisionObject, Contact, ContactSignal,
    DefaultDispatcher, DefaultNarrowPhase, Detector, NarrowPhase, Pair, ProximitySignal,
    SignalEvent,
};
use lattice_collide::shape::{cso_support_point, AnnotatedPoint, Cuboid, Shape, SupportMap};
use lattice_collide::support_map_against_support_map::{
    choose_initial_direction, closest_points_from, simplex_for_dimension,
    support_map_against_support_map, support_map_against_support_map_with_params, SimplexKind,
};

type Report = GJKResult<(Point, Point), Vector>;
type Start = AnnotatedPoint<Point, Vector>;

fn p(coords: &[i32]) -> Point {
    Point::new(coords.to_vec())
}

fn v(coords: &[i64]) -> Vector {
    Vector::new(coords.to_vec())
}

fn cube(half: u32) -> Cuboid {
    Cuboid::new(vec![half; 3])
}

fn dot(a: &[f64], b: &[f64]) -> f64 {
    a.iter().zip(b).map(|(x, y)| x * y).sum()
}

fn sub(a: &[f64], b: &[f64]) -> Vec<f64> {
    a.iter().zip(b).map(|(x, y)| x - y).collect()
}

fn neg(a: &[f64]) -> Vec<f64> {
    a.iter().map(|x| -x).collect()
}

fn lerp(a: &[f64], b: &[f64], t: f64) -> Vec<f64> {
    a.iter().zip(b).map(|(x, y)| x + (y - x) * t).collect()
}

fn reals(point: &Point) -> Vec<f64> {
    point.coords.iter().map(|x| *x as f64).collect()
}

fn to_point(a: &[f64]) -> Point {
    Point::new(a.iter().map(|x| x.round() as i32).collect())
}

fn to_vector(a: &[f64]) -> Vector {
    Vector::new(a.iter().map(|x| x.round() as i64).collect())
}

/// The lattice direction nearest to `a`, at a length of about a million.
fn direction(a: &[f64]) -> Vector {
    let norm = dot(a, a).sqrt();
    Vector::new(a.iter().map(|x| (x / norm * 1048576.0).round() as i64).collect())
}

/// A small iterative distance engine: it walks a point of the difference
/// of the two shapes toward the origin, one support point at a time, and
/// gives up after a fixed number of steps.
fn engine<G1: SupportMap, G2: SupportMap>(
    m1: &Point,
    g1: &G1,
    m2: &Point,
    g2: &G2,
    start: Start,
    max_dist: u64,
) -> Report {
    let mut pa = reals(&start.orig1);
    let mut pb = reals(&start.orig2);
    let mut at = sub(&pa, &pb);
    assert_eq!(to_vector(&at), start.point);
    for _ in 0..100_000 {
        let vv = dot(&at, &at);
        if vv < 0.25 {
            return GJKResult::Intersection;
        }
        let step = cso_support_point(m1, g1, m2, g2, direction(&neg(&at)));
        let sa = reals(&step.orig1);
        let sb = reals(&step.orig2);
        let w = sub(&sa, &sb);
        let vw = dot(&at, &w);
        if vw > 0.0 && vw / vv.sqrt() > max_dist as f64 {
            return GJKResult::NoIntersection(to_vector(&neg(&at)));
        }
        if vv - vw <= 2.0 * vv.sqrt() {
            return GJKResult::Projection((to_point(&pa), to_point(&pb)), to_vector(&neg(&at)));
        }
        let gap = sub(&w, &at);
        let t = (-dot(&at, &gap) / dot(&gap, &gap)).clamp(0.0, 1.0);
        pa = lerp(&pa, &sa, t);
        pb = lerp(&pb, &sb, t);
        at = sub(&pa, &pb);
    }
    GJKResult::NoIntersection(to_vector(&neg(&at)))
}

fn cubes(center1: &[i32], center2: &[i32], prediction: u64) -> ClosestPoints<Point> {
    let (m1, m2) = (p(center1), p(center2));
    let (g1, g2) = (cube(5), cube(5));
    support_map_against_support_map(&m1, &g1, &m2, &g2, prediction, |kind, start, bound| {
        assert_eq!(kind, SimplexKind::Voronoi3);
        engine(&m1, &g1, &m2, &g2, start, bound)
    })
}

#[test]
fn unit_cubes_five_apart_are_disjoint() {
    // Ten lattice units to the unit of length: half a side is 5, a prediction of 0.1 is 1.
    assert_eq!(cubes(&[0, 0, 0], &[50, 0, 0], 1), ClosestPoints::Disjoint);
}

#[test]
fn unit_cubes_one_and_a_half_apart_face_each_other() {
    // The facing sides are half a unit apart: beyond a prediction of 0.1, within one of 1.
    assert_eq!(cubes(&[0, 0, 0], &[15, 0, 0], 1), ClosestPoints::Disjoint);
    assert_eq!(
        cubes(&[0, 0, 0], &[15, 0, 0], 10),
        ClosestPoints::WithinMargin(p(&[5, 5, 5]), p(&[10, 5, 5]))
    );
}

#[test]
fn overlapping_unit_cubes_intersect() {
    assert_eq!(cubes(&[0, 0, 0], &[5, 0, 0], 1), ClosestPoints::Intersecting);
    assert_eq!(cubes(&[0, 0, 0], &[9, 2, 2], 5), ClosestPoints::Intersecting);
    assert_eq!(cubes(&[7, 7, 7], &[7, 7, 7], 0), ClosestPoints::Intersecting);
}

#[test]
fn exchanged_cubes_exchange_their_points() {
    let forth = cubes(&[0, 0, 0], &[15, 0, 0], 10);
    let back = cubes(&[15, 0, 0], &[0, 0, 0], 10);
    match (forth, back) {
        (ClosestPoints::WithinMargin(f1, f2), ClosestPoints::WithinMargin(b1, b2)) => {
            assert_eq!(f1.coords[0], b2.coords[0]);
            assert_eq!(f2.coords[0], b1.coords[0]);
        },
        other => panic!("expected two pairs within the margin, got {:?}", other),
    }
    assert_eq!(cubes(&[50, 0, 0], &[0, 0, 0], 1), ClosestPoints::Disjoint);
    assert_eq!(cubes(&[5, 0, 0], &[0, 0, 0], 1), ClosestPoints::Intersecting);
}

fn balls_by_support(c1: &[i32], r1: u32, c2: &[i32], r2: u32, margin: u64) -> ClosestPoints<Point> {
    let (m1, m2) = (p(c1), p(c2));
    let (g1, g2) = (Ball::new(r1), Ball::new(r2));
    support_map_against_support_map(&m1, &g1, &m2, &g2, margin, |_, start, bound| {
        engine(&m1, &g1, &m2, &g2, start, bound)
    })
}

#[test]
fn balls_by_their_support_agree_with_the_closed_form() {
    let cases: [(&[i32], u32, &[i32], u32, u64); 8] = [
        (&[0, 0, 0], 20, &[60, 0, 0], 20, 30),
        (&[0, 0, 0], 10, &[30, 40, 0], 15, 30),
        (&[0, 0, 0], 100, &[300, -200, 100], 120, 200),
        (&[0, 0, 0], 10, &[30, 40, 0], 15, 20),
        (&[0, 0, 0], 10, &[10, 10, 0], 15, 20),
        (&[-40, 25], 12, &[17, -9], 30, 40),
        (&[0, 0, 0], 1000, &[3000, -2000, 1000], 1200, 2000),
        (&[5, 5, 5], 300, &[-700, 650, 90], 200, 500),
    ];
    for (c1, r1, c2, r2, margin) in cases {
        let exact = ball_against_ball(&p(c1), &Ball::new(r1), &p(c2), &Ball::new(r2), margin);
        let walked = balls_by_support(c1, r1, c2, r2, margin);
        match (exact, walked) {
            (ClosestPoints::WithinMargin(e1, e2), ClosestPoints::WithinMargin(w1, w2)) => {
                for axis in 0..c1.len() {
                    assert!(coordinate_gap(e1.coords[axis], w1.coords[axis]) <= 2);
                    assert!(coordinate_gap(e2.coords[axis], w2.coords[axis]) <= 2);
                }
            },
            (exact, walked) => assert_eq!(exact, walked),
        }
    }
}

#[test]
fn the_closed_form_reports_the_support_points_toward_each_other() {
    let cases: [(&[i32], u32, &[i32], u32, u64); 4] = [
        (&[0, 0, 0], 10, &[30, 40, 0], 15, 30),
        (&[0, 0, 0], 100, &[300, -200, 100], 120, 200),
        (&[-40, 25], 12, &[17, -9], 30, 40),
        (&[5, 5, 5], 300, &[-700, 650, 90], 200, 500),
    ];
    for (c1, r1, c2, r2, margin) in cases {
        let (m1, m2) = (p(c1), p(c2));
        let (b1, b2) = (Ball::new(r1), Ball::new(r2));
        let there = cso_support_point(&m1, &b1, &m2, &b2, m2.minus(&m1));
        let back = cso_support_point(&m2, &b2, &m1, &b1, m1.minus(&m2));
        assert_eq!(
            ball_against_ball(&m1, &b1, &m2, &b2, margin),
            ClosestPoints::WithinMargin(there.orig1.clone(), there.orig2.clone())
        );
        assert_eq!(back.orig1, there.orig2);
        assert_eq!(back.orig2, there.orig1);
        assert_eq!(back.point, there.point.reversed());
    }
    let (m1, m2) = (p(&[0, 0, 0]), p(&[30, 40, 0]));
    let there = cso_support_point(&m1, &Ball::new(10), &m2, &Ball::new(15), v(&[30, 40, 0]));
    assert_eq!(
        there,
        AnnotatedPoint { orig1: p(&[6, 8, 0]), orig2: p(&[21, 28, 0]), point: v(&[-15, -20, 0]) }
    );
}

#[test]
fn support_points_lie_farthest_along_the_direction() {
    let c = Cuboid::new(vec![1, 2, 3]);
    let m = p(&[10, 20, 30]);
    assert_eq!(c.support_point(&m, &v(&[1, 1, 1])), p(&[11, 22, 33]));
    assert_eq!(c.support_point(&m, &v(&[-5, 0, 9])), p(&[9, 22, 33]));
    assert_eq!(c.support_point(&m, &v(&[0, -1, -1])), p(&[11, 18, 27]));
    let edge = Cuboid::new(vec![u32::MAX / 2, 0]);
    assert_eq!(edge.support_point(&p(&[0, i32::MIN]), &v(&[i64::MAX, 1])), p(&[i32::MAX, i32::MIN]));
    assert_eq!(
        edge.support_point(&p(&[-1, i32::MAX]), &v(&[i64::MIN, -1])),
        p(&[i32::MIN, i32::MAX])
    );
    let b = Ball::new(10);
    assert_eq!(b.support_point(&m, &v(&[3, 0, 0])), p(&[20, 20, 30]));
    assert_eq!(b.support_point(&m, &v(&[0, -7, 0])), p(&[10, 10, 30]));
    // The length of (3, 4, 0) is 5; that of (1, 1, 1) rounds up to 2.
    assert_eq!(b.support_point(&m, &v(&[-3, 4, 0])), p(&[4, 28, 30]));
    assert_eq!(b.support_point(&m, &v(&[1, 1, -1])), p(&[15, 25, 25]));
    let wide = Ball::new(i32::MAX as u32);
    assert_eq!(
        wide.support_point(&p(&[0, 0]), &v(&[0xffff_ffff, 0])),
        p(&[i32::MAX, 0])
    );
    assert_eq!(
        wide.support_point(&p(&[0, -1]), &v(&[0, -0xffff_ffff])),
        p(&[0, i32::MIN])
    );
}

#[test]
fn the_difference_has_its_support_point_from_both_shapes() {
    let (g1, g2) = (Cuboid::new(vec![1, 1]), Ball::new(5));
    let start = cso_support_point(&p(&[0, 0]), &g1, &p(&[10, 0]), &g2, v(&[-4, 0]));
    assert_eq!(
        start,
        AnnotatedPoint { orig1: p(&[-1, 1]), orig2: p(&[15, 0]), point: v(&[-16, 1]) }
    );
    let start = cso_support_point(&p(&[0, 0]), &g2, &p(&[10, 0]), &g1, v(&[3, 4]));
    assert_eq!(start, AnnotatedPoint { orig1: p(&[3, 4]), orig2: p(&[9, -1]), point: v(&[-6, 5]) });
    assert_eq!(v(&[1, -2, i64::MAX]).reversed(), v(&[-1, 2, -i64::MAX]));
}

#[test]
fn the_simplex_follows_the_dimension() {
    assert_eq!(simplex_for_dimension(2), SimplexKind::Voronoi2);
    assert_eq!(simplex_for_dimension(3), SimplexKind::Voronoi3);
    assert_eq!(simplex_for_dimension(0), SimplexKind::Johnson);
    assert_eq!(simplex_for_dimension(1), SimplexKind::Johnson);
    assert_eq!(simplex_for_dimension(4), SimplexKind::Johnson);
    assert_eq!(simplex_for_dimension(usize::MAX), SimplexKind::Johnson);
    for (dim, kind) in [
        (1, SimplexKind::Johnson),
        (2, SimplexKind::Voronoi2),
        (3, SimplexKind::Voronoi3),
        (6, SimplexKind::Johnson),
    ] {
        let (g1, g2) = (Cuboid::new(vec![1; dim]), Ball::new(1));
        let res = support_map_against_support_map(
            &p(&vec![0; dim]),
            &g1,
            &p(&vec![1; dim]),
            &g2,
            0,
            |asked, _, _| {
                assert_eq!(asked, kind);
                GJKResult::Intersection
            },
        );
        assert_eq!(res, ClosestPoints::Intersecting);
    }
}

#[test]
fn the_first_direction_leads_from_the_second_placement_to_the_first() {
    assert_eq!(choose_initial_direction(&p(&[1, 2, 3]), &p(&[4, 0, 3]), None), v(&[-3, 2, 0]));
    assert_eq!(choose_initial_direction(&p(&[4, 0, 3]), &p(&[1, 2, 3]), None), v(&[3, -2, 0]));
    assert_eq!(
        choose_initial_direction(&p(&[i32::MIN, 0]), &p(&[i32::MAX, 0]), None),
        v(&[-(u32::MAX as i64), 0])
    );
}

#[test]
fn coincident_placements_look_along_the_first_axis() {
    assert_eq!(choose_initial_direction(&p(&[4, 0, 3]), &p(&[4, 0, 3]), None), v(&[1, 0, 0]));
    assert_eq!(choose_initial_direction(&p(&[9]), &p(&[9]), None), v(&[1]));
}

#[test]
fn a_direction_asked_for_is_taken_unless_it_is_zero() {
    let m1 = p(&[1, 2]);
    let m2 = p(&[5, 5]);
    assert_eq!(choose_initial_direction(&m1, &m2, Some(v(&[0, -7]))), v(&[0, -7]));
    assert_eq!(choose_initial_direction(&m1, &m2, Some(v(&[0, 0]))), v(&[1, 0]));
    assert_eq!(choose_initial_direction(&m1, &m1, Some(v(&[2, 2]))), v(&[2, 2]));
}

#[test]
fn the_report_is_read_variant_by_variant() {
    let projection: Report = GJKResult::Projection((p(&[1, 2]), p(&[3, 4])), v(&[2, 2]));
    assert_eq!(
        closest_points_from(projection),
        ClosestPoints::WithinMargin(p(&[1, 2]), p(&[3, 4]))
    );
    let apart: Report = GJKResult::NoIntersection(v(&[1, 0]));
    assert_eq!(closest_points_from(apart), ClosestPoints::Disjoint);
    let overlap: Report = GJKResult::Intersection;
    assert_eq!(closest_points_from(overlap), ClosestPoints::Intersecting);
}

#[test]
fn the_engine_is_started_once_and_its_report_handed_back() {
    let m1 = p(&[0, 0]);
    let m2 = p(&[3, -4]);
    let (g1, g2) = (Cuboid::new(vec![1, 1]), Cuboid::new(vec![2, 2]));
    let reports: [Report; 4] = [
        GJKResult::Intersection,
        GJKResult::Proximity(v(&[1, 1])),
        GJKResult::Projection((p(&[1, -1]), p(&[2, -3])), v(&[3, -4])),
        GJKResult::NoIntersection(v(&[-3, 4])),
    ];
    for report in reports {
        let expected = report.clone();
        let mut calls = 0;
        let res = support_map_against_support_map_with_params(
            &m1,
            &g1,
            &m2,
            &g2,
            17,
            None,
            |start, bound| {
                calls += 1;
                // Along (-3, 4): the corner (-1, 1) of the first, the corner (5, -6) of the second.
                assert_eq!(
                    start,
                    AnnotatedPoint { orig1: p(&[-1, 1]), orig2: p(&[5, -6]), point: v(&[-6, 7]) }
                );
                assert_eq!(bound, 17);
                report
            },
        );
        assert_eq!(res, expected);
        assert_eq!(calls, 1);
    }
    // Asked to look along no direction, the query looks along the first axis.
    let res = support_map_against_support_map_with_params(
        &m1,
        &g1,
        &m1,
        &g2,
        0,
        Some(v(&[0, 0])),
        |start, _| GJKResult::NoIntersection(start.point),
    );
    assert_eq!(res, GJKResult::NoIntersection(v(&[3, -1])));
}

#[test]
fn the_query_hands_on_support_point_and_prediction() {
    let (g1, g2) = (Ball::new(2), Ball::new(1));
    let res = support_map_against_support_map(
        &p(&[8, 1, 1]),
        &g1,
        &p(&[2, 1, 1]),
        &g2,
        5,
        |_, start, bound| {
            assert_eq!(
                start,
                AnnotatedPoint { orig1: p(&[10, 1, 1]), orig2: p(&[1, 1, 1]), point: v(&[9, 0, 0]) }
            );
            assert_eq!(bound, 5);
            GJKResult::Projection((p(&[6, 1, 1]), p(&[3, 1, 1])), v(&[-1, 0, 0]))
        },
    );
    assert_eq!(res, ClosestPoints::WithinMargin(p(&[6, 1, 1]), p(&[3, 1, 1])));
    // Coincident centres: along the first axis.
    let res = support_map_against_support_map(
        &p(&[2, 1]),
        &g1,
        &p(&[2, 1]),
        &g2,
        0,
        |_, start, _| GJKResult::NoIntersection(start.point),
    );
    assert_eq!(res, ClosestPoints::Disjoint);
    let seen = support_map_against_support_map_with_params(
        &p(&[2, 1]),
        &g1,
        &p(&[2, 1]),
        &g2,
        0,
        None,
        |start, _| GJKResult::NoIntersection(start.point),
    );
    assert_eq!(seen, GJKResult::NoIntersection(v(&[3, 0])));
}

/// The engine as the narrow phase is given it.
fn walk(
    m1: &Point,
    g1: &Shape,
    m2: &Point,
    g2: &Shape,
    kind: SimplexKind,
    start: Start,
    bound: u64,
) -> Report {
    assert_eq!(kind, simplex_for_dimension(m1.coords.len()));
    engine(m1, g1, m2, g2, start, bound)
}

fn placed(position: &[i32], shape: Shape, data: char) -> CollisionObject<Shape, char> {
    CollisionObject { position: p(position), shape, query_limit: 5, data }
}

fn told(first: usize, second: usize, data1: char, data2: char, started: bool) -> SignalEvent<char> {
    SignalEvent { pair: Pair { first, second }, data1, data2, started }
}

#[test]
fn balls_take_the_closed_form_and_other_shapes_the_engine() {
    let dispatcher = DefaultDispatcher::new(walk);
    let (ball, cuboid) = (Shape::Ball(Ball::new(5)), Shape::Cuboid(cube(5)));
    assert!(matches!(dispatcher.get_collision_algorithm(&ball, &ball), Some(Detector::BallBall(_))));
    assert!(matches!(
        dispatcher.get_collision_algorithm(&ball, &cuboid),
        Some(Detector::SupportMap(_))
    ));
    assert!(matches!(
        dispatcher.get_collision_algorithm(&cuboid, &ball),
        Some(Detector::SupportMap(_))
    ));
    assert!(matches!(
        dispatcher.get_collision_algorithm(&cuboid, &cuboid),
        Some(Detector::SupportMap(_))
    ));

    let mut objects = vec![
        placed(&[0, 0, 0], Shape::Cuboid(cube(5)), 'a'),
        placed(&[15, 0, 0], Shape::Cuboid(cube(5)), 'b'),
        placed(&[0, 30, 0], Shape::Ball(Ball::new(5)), 'c'),
        placed(&[0, 45, 0], Shape::Ball(Ball::new(5)), 'd'),
    ];
    let mut narrow_phase = DefaultNarrowPhase::new(dispatcher);
    let mut contact_signal = ContactSignal::new();
    let mut proximity_signal = ProximitySignal::new();
    for (fk1, fk2) in [(0, 1), (3, 2), (2, 0)] {
        narrow_phase.handle_proximity(
            &mut contact_signal,
            &mut proximity_signal,
            &objects,
            fk1,
            fk2,
            true,
        );
    }
    assert!(matches!(narrow_phase.pairs[0].value, Detector::SupportMap(_)));
    assert!(matches!(narrow_phase.pairs[1].value, Detector::BallBall(_)));
    assert!(matches!(narrow_phase.pairs[2].value, Detector::SupportMap(_)));
    assert_eq!(narrow_phase.pairs[1].value.num_colls(), 0);
    assert_eq!(proximity_signal.events.len(), 3);

    narrow_phase.update(&objects, &mut contact_signal, &mut proximity_signal, 1);
    assert_eq!(
        contact_signal.events,
        vec![told(0, 1, 'a', 'b', true), told(2, 3, 'c', 'd', true)]
    );
    let mut walked = narrow_phase.contact_pairs(&objects).contacts();
    let mut found = Vec::new();
    while let Some((co1, co2, contact)) = walked.next() {
        found.push((co1.data, co2.data, contact));
    }
    assert_eq!(
        found,
        vec![
            ('a', 'b', Contact::WithinMargin(p(&[5, 5, 5]), p(&[10, 5, 5]))),
            ('c', 'd', Contact::WithinMargin(p(&[0, 35, 0]), p(&[0, 40, 0]))),
        ]
    );

    // The first cube moves up to the first ball; the second cube is left behind.
    objects[0].position = p(&[0, 21, 0]);
    narrow_phase.update(&objects, &mut contact_signal, &mut proximity_signal, 2);
    assert_eq!(
        contact_signal.events[2..],
        [told(0, 1, 'a', 'b', false), told(0, 2, 'a', 'c', true)]
    );
    narrow_phase.handle_proximity(
        &mut contact_signal,
        &mut proximity_signal,
        &objects,
        0,
        2,
        false,
    );
    assert_eq!(contact_signal.events[4..], [told(0, 2, 'a', 'c', false)]);
    assert_eq!(proximity_signal.events[3..], [told(0, 2, 'a', 'c', false)]);
}
