//! The detectors for the shapes that the narrow phase tells apart, and the
//! dispatcher that chooses among them.

use vstd::prelude::*;
use crate::ball_against_ball::Ball;
use crate::closest_points::{ClosestPoints, GJKResult};
use crate::math::{negated, Point, Vector};
use crate::narrow_phase::detector::{
    contact_views, contacts_of, BallBallDetector, CollisionDetector, CollisionDispatcher, Contact,
};
use crate::shape::{cso_support, AnnotatedPoint, Shape, SupportMap};
use crate::support_map_against_support_map::{
    closest_points_of, initial_direction, simplex_for, support_map_against_support_map,
    SimplexKind,
};

verus! {

/// Whether `engine` can be started on the two placed shapes: it takes the
/// simplex of their dimension, the support point of their difference along
/// the displacement between them, and the prediction distance, and it never
/// answers with mere proximity.
pub open spec fn engine_accepts<E>(
    engine: E,
    m1: Seq<int>,
    g1: Shape,
    m2: Seq<int>,
    g2: Shape,
    prediction: int,
) -> bool where
    E: Fn(
        &Point,
        &Shape,
        &Point,
        &Shape,
        SimplexKind,
        AnnotatedPoint<Point, Vector>,
        u64,
    ) -> GJKResult<(Point, Point), Vector>,
{
    forall|p1: Point, p2: Point, start: AnnotatedPoint<Point, Vector>, bound: u64|
        #![trigger call_requires(engine, (&p1, &g1, &p2, &g2, simplex_for(m1.len()), start, bound))]
        p1@ == m1 && p2@ == m2 && bound == prediction && start@ == cso_support(
            m1,
            g1,
            m2,
            g2,
            initial_direction(m1, m2, None),
        ) ==> {
            &&& call_requires(engine, (&p1, &g1, &p2, &g2, simplex_for(m1.len()), start, bound))
            &&& forall|out: GJKResult<(Point, Point), Vector>|
                call_ensures(
                    engine,
                    (&p1, &g1, &p2, &g2, simplex_for(m1.len()), start, bound),
                    out,
                ) ==> !(out is Proximity)
        }
}

/// Whether `points` is what a report of `engine`, started on the two placed
/// shapes, means for the pair.
pub open spec fn engine_finds<E>(
    engine: E,
    m1: Seq<int>,
    g1: Shape,
    m2: Seq<int>,
    g2: Shape,
    prediction: int,
    points: ClosestPoints<Point>,
) -> bool where
    E: Fn(
        &Point,
        &Shape,
        &Point,
        &Shape,
        SimplexKind,
        AnnotatedPoint<Point, Vector>,
        u64,
    ) -> GJKResult<(Point, Point), Vector>,
{
    exists|
        p1: Point,
        p2: Point,
        start: AnnotatedPoint<Point, Vector>,
        bound: u64,
        out: GJKResult<(Point, Point), Vector>,
    |
        #![trigger call_ensures(engine, (&p1, &g1, &p2, &g2, simplex_for(m1.len()), start, bound), out)]
        p1@ == m1 && p2@ == m2 && bound == prediction && start@ == cso_support(
            m1,
            g1,
            m2,
            g2,
            initial_direction(m1, m2, None),
        ) && call_ensures(
            engine,
            (&p1, &g1, &p2, &g2, simplex_for(m1.len()), start, bound),
            out,
        ) && Some(points) == closest_points_of(out)
}

/// The detector for two support-mapped shapes: it starts the engine it was
/// given on them.
pub struct SupportMapDetector<E> {
    pub engine: E,
    pub contacts: Vec<Contact<Point>>,
    pub timestamp: Option<usize>,
}

impl<E> SupportMapDetector<E> {
    /// A detector that has found nothing yet.
    pub fn new(engine: E) -> (detector: SupportMapDetector<E>)
        ensures
            detector.engine == engine,
            detector.contacts@.len() == 0,
            detector.timestamp is None,
    {
        SupportMapDetector { engine, contacts: Vec::new(), timestamp: None }
    }
}

impl<E> CollisionDetector for SupportMapDetector<E> where
    E: Fn(
        &Point,
        &Shape,
        &Point,
        &Shape,
        SimplexKind,
        AnnotatedPoint<Point, Vector>,
        u64,
    ) -> GJKResult<(Point, Point), Vector>,
{
    type Shape = Shape;

    open spec fn contacts(&self) -> Seq<Contact<Seq<int>>> {
        contact_views(self.contacts@)
    }

    /// The placements are of one dimension, not zero; each shape can be
    /// asked along the displacement between them; and the engine can be
    /// started on the pair.
    open spec fn accepts(
        &self,
        m1: Seq<int>,
        g1: Shape,
        m2: Seq<int>,
        g2: Shape,
        prediction: int,
    ) -> bool {
        &&& 1 <= m1.len() == m2.len()
        &&& 0 <= prediction <= u64::MAX
        &&& g1.admits(m1, initial_direction(m1, m2, None))
        &&& g2.admits(m2, negated(initial_direction(m1, m2, None)))
        &&& engine_accepts(self.engine, m1, g1, m2, g2, prediction)
    }

    /// Within the tick of the last update nothing changes; otherwise the
    /// contacts are those that a report of the engine amounts to.
    open spec fn updated(
        &self,
        m1: Seq<int>,
        g1: Shape,
        m2: Seq<int>,
        g2: Shape,
        prediction: int,
        timestamp: usize,
        next: SupportMapDetector<E>,
    ) -> bool {
        if self.timestamp == Some(timestamp) {
            next == *self
        } else {
            &&& next.timestamp == Some(timestamp)
            &&& next.engine == self.engine
            &&& exists|points: ClosestPoints<Point>|
                #![trigger engine_finds(self.engine, m1, g1, m2, g2, prediction, points)]
                engine_finds(self.engine, m1, g1, m2, g2, prediction, points) && next.contacts()
                    == contacts_of(points@)
        }
    }

    fn update(
        &mut self,
        m1: &Point,
        g1: &Shape,
        m2: &Point,
        g2: &Shape,
        prediction: u64,
        timestamp: usize,
    ) {
        let stale: bool = match self.timestamp {
            Some(t) => t != timestamp,
            None => true,
        };
        if stale {
            let ghost kind = simplex_for(m1@.len());
            let engine = &self.engine;
            let run = |asked: SimplexKind, start: AnnotatedPoint<Point, Vector>, bound: u64| -> (out:
                GJKResult<(Point, Point), Vector>)
                requires
                    call_requires(*engine, (m1, g1, m2, g2, asked, start, bound)),
                ensures
                    call_ensures(*engine, (m1, g1, m2, g2, asked, start, bound), out),
                { engine(m1, g1, m2, g2, asked, start, bound) };
            proof {
                assert forall|
                    start: AnnotatedPoint<Point, Vector>,
                    out: GJKResult<(Point, Point), Vector>,
                |
                    start@ == cso_support(m1@, *g1, m2@, *g2, initial_direction(m1@, m2@, None))
                        && call_ensures(run, (kind, start, prediction), out) implies !(out
                    is Proximity) by {
                    assert(call_requires(*engine, (m1, g1, m2, g2, kind, start, prediction)));
                    assert(call_ensures(*engine, (m1, g1, m2, g2, kind, start, prediction), out));
                }
            }
            let points = support_map_against_support_map(m1, g1, m2, g2, prediction, run);
            assert(engine_finds(self.engine, m1@, *g1, m2@, *g2, prediction as int, points));
            self.contacts.clear();
            match points {
                ClosestPoints::Intersecting => {
                    self.contacts.push(Contact::Intersecting);
                },
                ClosestPoints::WithinMargin(p1, p2) => {
                    self.contacts.push(Contact::WithinMargin(p1, p2));
                },
                ClosestPoints::Disjoint => {},
            }
            self.timestamp = Some(timestamp);
            assert(self.contacts() =~= contacts_of(points@));
        }
    }

    fn num_colls(&self) -> (n: usize) {
        self.contacts.len()
    }

    fn colls(&self, out: &mut Vec<Contact<Point>>) {
        let n: usize = self.contacts.len();
        let mut i: usize = 0;
        while i < n
            invariant
                n == self.contacts@.len(),
                i <= n,
                contact_views(out@) == contact_views(old(out)@) + self.contacts().take(i as int),
            decreases n - i,
        {
            let ghost before = out@;
            out.push(self.contacts[i].clone());
            assert(contact_views(out@) =~= contact_views(before).push(self.contacts()[i as int]));
            assert(self.contacts().take(i + 1) =~= self.contacts().take(i as int).push(
                self.contacts()[i as int],
            ));
            i = i + 1;
        }
        assert(self.contacts().take(n as int) =~= self.contacts());
    }
}

/// The detector of a tracked pair: the closed form for two balls, the
/// engine for every other pair of shapes.
pub enum Detector<E> {
    BallBall(BallBallDetector),
    SupportMap(SupportMapDetector<E>),
}

impl<E> CollisionDetector for Detector<E> where
    E: Fn(
        &Point,
        &Shape,
        &Point,
        &Shape,
        SimplexKind,
        AnnotatedPoint<Point, Vector>,
        u64,
    ) -> GJKResult<(Point, Point), Vector>,
{
    type Shape = Shape;

    open spec fn contacts(&self) -> Seq<Contact<Seq<int>>> {
        match *self {
            Detector::BallBall(d) => d.contacts(),
            Detector::SupportMap(d) => d.contacts(),
        }
    }

    /// The detector for two balls accepts two balls; the other accepts what
    /// its engine accepts.
    open spec fn accepts(
        &self,
        m1: Seq<int>,
        g1: Shape,
        m2: Seq<int>,
        g2: Shape,
        prediction: int,
    ) -> bool {
        match (*self, g1, g2) {
            (Detector::BallBall(d), Shape::Ball(b1), Shape::Ball(b2)) => d.accepts(
                m1,
                b1,
                m2,
                b2,
                prediction,
            ),
            (Detector::SupportMap(d), _, _) => d.accepts(m1, g1, m2, g2, prediction),
            _ => false,
        }
    }

    open spec fn updated(
        &self,
        m1: Seq<int>,
        g1: Shape,
        m2: Seq<int>,
        g2: Shape,
        prediction: int,
        timestamp: usize,
        next: Detector<E>,
    ) -> bool {
        match (*self, g1, g2, next) {
            (
                Detector::BallBall(d),
                Shape::Ball(b1),
                Shape::Ball(b2),
                Detector::BallBall(n),
            ) => d.updated(m1, b1, m2, b2, prediction, timestamp, n),
            (Detector::SupportMap(d), _, _, Detector::SupportMap(n)) => d.updated(
                m1,
                g1,
                m2,
                g2,
                prediction,
                timestamp,
                n,
            ),
            _ => false,
        }
    }

    fn update(
        &mut self,
        m1: &Point,
        g1: &Shape,
        m2: &Point,
        g2: &Shape,
        prediction: u64,
        timestamp: usize,
    ) {
        match self {
            Detector::BallBall(d) => {
                match (g1, g2) {
                    (Shape::Ball(b1), Shape::Ball(b2)) => {
                        d.update(m1, b1, m2, b2, prediction, timestamp);
                    },
                    _ => {},
                }
            },
            Detector::SupportMap(d) => {
                d.update(m1, g1, m2, g2, prediction, timestamp);
            },
        }
    }

    fn num_colls(&self) -> (n: usize) {
        match self {
            Detector::BallBall(d) => d.num_colls(),
            Detector::SupportMap(d) => d.num_colls(),
        }
    }

    fn colls(&self, out: &mut Vec<Contact<Point>>) {
        match self {
            Detector::BallBall(d) => d.colls(out),
            Detector::SupportMap(d) => d.colls(out),
        }
    }
}

/// The dispatcher that tells balls from other shapes. It holds the engine
/// that every detector for other shapes is given.
pub struct DefaultDispatcher<E> {
    pub engine: E,
}

impl<E> DefaultDispatcher<E> {
    /// The dispatcher that hands out `engine`.
    pub fn new(engine: E) -> (dispatcher: DefaultDispatcher<E>)
        ensures
            dispatcher.engine == engine,
    {
        DefaultDispatcher { engine }
    }
}

impl<E> CollisionDispatcher for DefaultDispatcher<E> where
    E: Copy + Fn(
        &Point,
        &Shape,
        &Point,
        &Shape,
        SimplexKind,
        AnnotatedPoint<Point, Vector>,
        u64,
    ) -> GJKResult<(Point, Point), Vector>,
{
    type Detector = Detector<E>;

    open spec fn allows(&self, g1: Shape, g2: Shape) -> bool {
        true
    }

    fn get_collision_algorithm(&self, g1: &Shape, g2: &Shape) -> (detector: Option<Detector<E>>)
        ensures
            match detector {
                Some(Detector::BallBall(d)) => {
                    &&& g1 is Ball
                    &&& g2 is Ball
                    &&& d.timestamp is None
                },
                Some(Detector::SupportMap(d)) => {
                    &&& !(g1 is Ball && g2 is Ball)
                    &&& d.engine == self.engine
                    &&& d.timestamp is None
                },
                None => false,
            },
    {
        match (g1, g2) {
            (Shape::Ball(_), Shape::Ball(_)) => Some(Detector::BallBall(BallBallDetector::new())),
            _ => Some(Detector::SupportMap(SupportMapDetector::new(self.engine))),
        }
    }
}

} // verus!
