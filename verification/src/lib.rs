//! Authoritative server core of a small real-time multiplayer simulation.
//!
//! One authority owns the world state, applies client commands, advances
//! physics on a fixed tick and fans a snapshot out to every registered
//! session.  All quantities are fixed-point: `i64` counts of thousandths
//! of a world unit (milli-units), so every kinematic step is exact.

pub mod codec;
pub mod entity;
mod ext;
pub mod game;
pub mod message;
pub mod num;
pub mod session;
pub mod vector;

use vstd::prelude::*;

verus! {

/// Arena width, in milli-units (800 world units).
pub const ARENA_W: i64 = 800_000;

/// Arena height, in milli-units (600 world units).
pub const ARENA_H: i64 = 600_000;

/// Speed given to every bullet, in milli-units per second (300 units/s).
pub const BULLET_SPEED: i64 = 300_000;

/// Initial health of a player, in milli-points (100 points).
pub const PLAYER_HEALTH: i64 = 100_000;

/// Period of the authority's physics tick, in milliseconds.
pub const TICK_MS: i64 = 16;

/// Period of a session's liveness check, in milliseconds.
pub const HEARTBEAT_MS: i64 = 5_000;

/// A session with no activity for longer than this is closed, in milliseconds.
pub const CLIENT_TIMEOUT_MS: i64 = 10_000;

} // verus!
