//! Narrow-phase proximity queries on an integer lattice.
//!
//! Coordinates, radii and margins are whole numbers of one fixed unit, so
//! every threshold test is exact and every contract is stated over `int`.
//!
//! * [`ball_against_ball`] answers for two balls in closed form.
//! * [`support_map_against_support_map`] starts a caller's iterative
//!   distance engine on two support-mapped shapes and reads its report.
//! * [`narrow_phase`] tracks the pairs that a broad phase reports as close,
//!   runs their detectors once per tick and records what starts and stops.

pub mod ball_against_ball;
pub mod closest_points;
pub mod isqrt;
pub mod math;
pub mod narrow_phase;
pub mod shape;
pub mod support_map_against_support_map;
