//! A deterministic, tick-driven tower-defense simulation core.
//!
//! A stationary tower auto-targets and fires at enemies that spawn off-screen
//! and converge on it; projectiles travel in a straight line toward the
//! position their target had when fired and destroy it on contact; enemies
//! that reach the tower are flagged and swept away.
//!
//! All geometry is integer fixed-point: one world unit is `1000`
//! milli-units, and time is measured in milliseconds.

pub mod entities;
pub mod geom;
pub mod laws;
pub mod num;
pub mod rng;
pub mod world;

use vstd::prelude::*;

verus! {

/// Largest coordinate magnitude the playfield admits, in milli-units.
pub const POS_LIMIT: i64 = 1_000_000_000_000;

/// Largest speed a mover may have, in milli-units per millisecond.
pub const SPEED_LIMIT: i64 = 1_000_000;

/// Largest elapsed time a single tick may report, in milliseconds.
pub const DT_MAX: u64 = 100_000_000;

/// Largest viewport width or height, in milli-units.
pub const VIEW_LIMIT: i64 = 1_000_000_000;

/// Largest half-extent or radius a collision shape may have, in milli-units.
pub const HALF_LIMIT: i64 = 1_000_000_000;

} // verus!
