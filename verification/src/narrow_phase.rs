//! The narrow phase: which pairs of objects are tracked, what their
//! detectors last found, and the events that tell of it.

pub mod contact_pairs;
pub mod detector;
pub mod dispatch;
pub mod narrow_phase;
pub mod pair;
pub mod signal;
pub mod tracking;

pub use self::contact_pairs::{ContactPairs, Contacts};
pub use self::detector::{
    BallBallDetector, BallBallDispatcher, CollisionDetector, CollisionDispatcher, CollisionObject,
    Contact, ShapeOf,
};
pub use self::dispatch::{DefaultDispatcher, Detector, SupportMapDetector};
pub use self::narrow_phase::{DefaultNarrowPhase, NarrowPhase};
pub use self::pair::Pair;
pub use self::signal::{ContactSignal, ProximitySignal, SignalEvent};
pub use self::tracking::Entry;
