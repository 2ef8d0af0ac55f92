//! The key under which a pair of objects is tracked.

use vstd::prelude::*;

verus! {

/// An unordered pair of object keys, the smaller one first.
#[derive(Debug, PartialEq, Eq, Clone, Copy, Hash, Structural)]
pub struct Pair {
    pub first: usize,
    pub second: usize,
}

impl Pair {
    /// The pair of `a` and `b`, whichever comes first.
    pub open spec fn of(a: usize, b: usize) -> Pair {
        if a <= b {
            Pair { first: a, second: b }
        } else {
            Pair { first: b, second: a }
        }
    }

    /// Makes the pair of `fk1` and `fk2`.
    pub fn new(fk1: usize, fk2: usize) -> (pair: Pair)
        ensures
            pair == Pair::of(fk1, fk2),
            pair == Pair::of(fk2, fk1),
            pair.first <= pair.second,
    {
        if fk1 <= fk2 {
            Pair { first: fk1, second: fk2 }
        } else {
            Pair { first: fk2, second: fk1 }
        }
    }
}

} // verus!
