//! Objects, the contacts between them, and the detectors that find the
//! contacts of one pair.

use vstd::prelude::*;
use crate::ball_against_ball::{ball_against_ball, ball_ball_closest_points, Ball};
use crate::closest_points::ClosestPoints;
use crate::math::Point;

verus! {

/// What a detector found between two objects that are not disjoint.
#[derive(Debug, PartialEq, Eq)]
pub enum Contact<P> {
    /// The shapes overlap or touch.
    Intersecting,
    /// The shapes are apart by no more than the prediction distance; the
    /// points are the nearest ones, the first on the first shape.
    WithinMargin(P, P),
}

impl<P: View> View for Contact<P> {
    type V = Contact<P::V>;

    open spec fn view(&self) -> Contact<P::V> {
        match *self {
            Contact::Intersecting => Contact::Intersecting,
            Contact::WithinMargin(p1, p2) => Contact::WithinMargin(p1@, p2@),
        }
    }
}

impl Clone for Contact<Point> {
    fn clone(&self) -> (c: Contact<Point>)
        ensures
            c@ == self@,
    {
        match self {
            Contact::Intersecting => Contact::Intersecting,
            Contact::WithinMargin(p1, p2) => Contact::WithinMargin(p1.clone(), p2.clone()),
        }
    }
}

/// The contacts that an outcome of the proximity query amounts to: one,
/// unless the shapes are disjoint.
pub open spec fn contacts_of(points: ClosestPoints<Seq<int>>) -> Seq<Contact<Seq<int>>> {
    match points {
        ClosestPoints::Intersecting => seq![Contact::Intersecting],
        ClosestPoints::WithinMargin(p1, p2) => seq![Contact::WithinMargin(p1, p2)],
        ClosestPoints::Disjoint => Seq::empty(),
    }
}

/// The contacts of a buffer, each by its coordinates.
pub open spec fn contact_views(buffer: Seq<Contact<Point>>) -> Seq<Contact<Seq<int>>> {
    Seq::new(buffer.len(), |i: int| buffer[i]@)
}

/// An object of the world: where it is, what shape it has, how far around
/// itself it asks to be told of others, and what its owner attached to it.
pub struct CollisionObject<G, T> {
    pub position: Point,
    pub shape: G,
    pub query_limit: u32,
    pub data: T,
}

/// The state kept for one tracked pair. Given the placements and shapes of
/// the two objects it finds their contacts anew.
pub trait CollisionDetector: Sized {
    /// The shapes this detector works on.
    type Shape;

    /// The contacts found by the last update.
    spec fn contacts(&self) -> Seq<Contact<Seq<int>>>;

    /// What the detector asks of the two objects and the prediction
    /// distance before it is updated.
    spec fn accepts(
        &self,
        m1: Seq<int>,
        g1: Self::Shape,
        m2: Seq<int>,
        g2: Self::Shape,
        prediction: int,
    ) -> bool;

    /// Whether `next` is the state an update with these arguments leaves.
    spec fn updated(
        &self,
        m1: Seq<int>,
        g1: Self::Shape,
        m2: Seq<int>,
        g2: Self::Shape,
        prediction: int,
        timestamp: usize,
        next: Self,
    ) -> bool;

    /// Finds the contacts between the two objects anew. `timestamp` names
    /// the tick, so that a second call within one tick need not compute
    /// again.
    fn update(
        &mut self,
        m1: &Point,
        g1: &Self::Shape,
        m2: &Point,
        g2: &Self::Shape,
        prediction: u64,
        timestamp: usize,
    )
        requires
            old(self).accepts(m1@, *g1, m2@, *g2, prediction as int),
        ensures
            old(self).updated(m1@, *g1, m2@, *g2, prediction as int, timestamp, *final(self)),
    ;

    /// The number of contacts found by the last update.
    fn num_colls(&self) -> (n: usize)
        ensures
            n == self.contacts().len(),
    ;

    /// Appends the contacts found by the last update to `out`.
    fn colls(&self, out: &mut Vec<Contact<Point>>)
        ensures
            contact_views(final(out)@) == contact_views(old(out)@) + self.contacts(),
    ;
}

/// Chooses the detector for a pair of shapes.
pub trait CollisionDispatcher {
    /// The detectors this dispatcher hands out.
    type Detector: CollisionDetector;

    /// Whether a pair of these shapes is to be tracked.
    spec fn allows(
        &self,
        g1: <Self::Detector as CollisionDetector>::Shape,
        g2: <Self::Detector as CollisionDetector>::Shape,
    ) -> bool;

    /// A fresh detector for the two shapes, or nothing where the pair is not
    /// to be tracked. A fresh detector has found no contact yet.
    fn get_collision_algorithm(
        &self,
        g1: &<Self::Detector as CollisionDetector>::Shape,
        g2: &<Self::Detector as CollisionDetector>::Shape,
    ) -> (detector: Option<Self::Detector>)
        ensures
            detector is Some <==> self.allows(*g1, *g2),
            detector matches Some(d) ==> d.contacts().len() == 0,
    ;
}

/// The detector for two balls: it asks the closed-form query.
pub struct BallBallDetector {
    pub contacts: Vec<Contact<Point>>,
    pub timestamp: Option<usize>,
}

impl BallBallDetector {
    /// A detector that has found nothing yet.
    pub fn new() -> (detector: BallBallDetector)
        ensures
            detector.contacts@.len() == 0,
            detector.timestamp is None,
    {
        BallBallDetector { contacts: Vec::new(), timestamp: None }
    }
}

impl CollisionDetector for BallBallDetector {
    type Shape = Ball;

    open spec fn contacts(&self) -> Seq<Contact<Seq<int>>> {
        contact_views(self.contacts@)
    }

    /// The two centres are of one dimension.
    open spec fn accepts(
        &self,
        m1: Seq<int>,
        g1: Ball,
        m2: Seq<int>,
        g2: Ball,
        prediction: int,
    ) -> bool {
        m1.len() == m2.len()
    }

    /// Within the tick of the last update nothing changes; otherwise the
    /// contacts are those of the closed-form query on the given balls.
    open spec fn updated(
        &self,
        m1: Seq<int>,
        g1: Ball,
        m2: Seq<int>,
        g2: Ball,
        prediction: int,
        timestamp: usize,
        next: BallBallDetector,
    ) -> bool {
        if self.timestamp == Some(timestamp) {
            next == *self
        } else {
            &&& next.timestamp == Some(timestamp)
            &&& next.contacts() == contacts_of(
                ball_ball_closest_points(m1, g1.radius as int, m2, g2.radius as int, prediction),
            )
        }
    }

    fn update(
        &mut self,
        m1: &Point,
        g1: &Ball,
        m2: &Point,
        g2: &Ball,
        prediction: u64,
        timestamp: usize,
    ) {
        let stale: bool = match self.timestamp {
            Some(t) => t != timestamp,
            None => true,
        };
        if stale {
            self.contacts.clear();
            match ball_against_ball(m1, g1, m2, g2, prediction) {
                ClosestPoints::Intersecting => {
                    self.contacts.push(Contact::Intersecting);
                },
                ClosestPoints::WithinMargin(p1, p2) => {
                    self.contacts.push(Contact::WithinMargin(p1, p2));
                },
                ClosestPoints::Disjoint => {},
            }
            self.timestamp = Some(timestamp);
            assert(self.contacts() =~= contacts_of(
                ball_ball_closest_points(
                    m1@,
                    g1.radius as int,
                    m2@,
                    g2.radius as int,
                    prediction as int,
                ),
            ));
        }
    }

    fn num_colls(&self) -> (n: usize) {
        self.contacts.len()
    }

    fn colls(&self, out: &mut Vec<Contact<Point>>) {
        let n: usize = self.contacts.len();
        let mut i: usize = 0;
        while i < n
            invariant
                n == self.contacts@.len(),
                i <= n,
                contact_views(out@) == contact_views(old(out)@) + self.contacts().take(i as int),
            decreases n - i,
        {
            let ghost before = out@;
            out.push(self.contacts[i].clone());
            assert(contact_views(out@) =~= contact_views(before).push(self.contacts()[i as int]));
            assert(self.contacts().take(i + 1) =~= self.contacts().take(i as int).push(
                self.contacts()[i as int],
            ));
            i = i + 1;
        }
        assert(self.contacts().take(n as int) =~= self.contacts());
    }
}

/// The dispatcher of a world of balls: every pair gets the ball detector.
pub struct BallBallDispatcher {}

impl CollisionDispatcher for BallBallDispatcher {
    type Detector = BallBallDetector;

    open spec fn allows(&self, g1: Ball, g2: Ball) -> bool {
        true
    }

    fn get_collision_algorithm(&self, g1: &Ball, g2: &Ball) -> (detector: Option<
        BallBallDetector,
    >)
        ensures
            detector matches Some(d) && d.timestamp is None,
    {
        Some(BallBallDetector::new())
    }
}

/// The shapes that the detector `D` works on.
pub type ShapeOf<D> = <D as CollisionDetector>::Shape;

} // verus!
