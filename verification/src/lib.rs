//! Combat and movement simulation core for a 2D action platformer.
//!
//! The crate models the three transient-state subsystems of the game —
//! a timed dash override, a grapple hook that drives either a spring
//! swing or a pull-release maneuver, and projectile hit resolution —
//! as a pure state machine over fixed-point integer physics values.
//! The surrounding engine (rendering, integration, collision detection)
//! is treated as an external collaborator: it feeds positions,
//! velocities and touch transitions in, and carries velocity writes and
//! impulses back out through an explicit command stream.

pub mod config;
pub mod dash;
pub mod grapple;
pub mod math;
pub mod projectile;
pub mod world;
