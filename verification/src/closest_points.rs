//! The outcomes of a proximity query and of the iterative distance engine.

use vstd::prelude::*;

verus! {

/// How two shapes lie to each other, given a margin.
#[derive(Debug, PartialEq, Eq, Clone)]
pub enum ClosestPoints<P> {
    /// The shapes overlap or touch.
    Intersecting,
    /// The shapes are apart by no more than the margin; the two points are
    /// the nearest ones, the first on the first shape.
    WithinMargin(P, P),
    /// The shapes are apart by more than the margin.
    Disjoint,
}

/// What the iterative distance engine reports.
#[derive(Debug, PartialEq, Eq, Clone)]
pub enum GJKResult<P, V> {
    /// The shapes overlap or touch.
    Intersection,
    /// The shapes are apart and within the bound; only a separating
    /// direction is known.
    Proximity(V),
    /// The nearest points and the direction that separates them.
    Projection(P, V),
    /// The shapes are apart by more than the bound.
    NoIntersection(V),
}

impl<P: View> View for ClosestPoints<P> {
    type V = ClosestPoints<P::V>;

    open spec fn view(&self) -> ClosestPoints<P::V> {
        match *self {
            ClosestPoints::Intersecting => ClosestPoints::Intersecting,
            ClosestPoints::WithinMargin(p1, p2) => ClosestPoints::WithinMargin(p1@, p2@),
            ClosestPoints::Disjoint => ClosestPoints::Disjoint,
        }
    }
}

impl<P: View, V: View> View for GJKResult<P, V> {
    type V = GJKResult<P::V, V::V>;

    open spec fn view(&self) -> GJKResult<P::V, V::V> {
        match *self {
            GJKResult::Intersection => GJKResult::Intersection,
            GJKResult::Proximity(dir) => GJKResult::Proximity(dir@),
            GJKResult::Projection(points, dir) => GJKResult::Projection(points@, dir@),
            GJKResult::NoIntersection(dir) => GJKResult::NoIntersection(dir@),
        }
    }
}

impl<P> ClosestPoints<P> {
    /// The same outcome seen from the second shape.
    pub open spec fn flipped(self) -> ClosestPoints<P> {
        match self {
            ClosestPoints::Intersecting => ClosestPoints::Intersecting,
            ClosestPoints::WithinMargin(p1, p2) => ClosestPoints::WithinMargin(p2, p1),
            ClosestPoints::Disjoint => ClosestPoints::Disjoint,
        }
    }

    /// Exchanges the roles of the two shapes.
    pub fn flip(self) -> (res: ClosestPoints<P>)
        ensures
            res == self.flipped(),
    {
        match self {
            ClosestPoints::Intersecting => ClosestPoints::Intersecting,
            ClosestPoints::WithinMargin(p1, p2) => ClosestPoints::WithinMargin(p2, p1),
            ClosestPoints::Disjoint => ClosestPoints::Disjoint,
        }
    }
}

} // verus!
