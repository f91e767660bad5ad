//! Tunable numeric configuration and the global machine limits that keep
//! every computation of the core within 64-bit integer range.

use vstd::prelude::*;

verus! {

/// Default restoring-spring constant of the grapple swing.
pub const DEFAULT_GRAPPLING_HOOK_SPRING_FORCE: i64 = 100_000;

/// Default damping constant of the grapple swing.
pub const DEFAULT_GRAPPLING_HOOK_DAMPENING: i64 = 1_000_000;

/// Default magnitude of the one-shot impulse a pull-release applies.
pub const DEFAULT_GRAPPLE_PULL_IMPULSE: i64 = 100_000;

/// Default projectile speed (world units per second).
pub const PROJECTILE_DEFAULT_VELOCITY: i64 = 1_000;

/// Default projectile knockback magnitude.
pub const PROJECTILE_DEFAULT_KNOCKBACK: i64 = 100_000;

/// Damage dealt by a player projectile.
pub const PLAYER_PROJECTILE_DAMAGE: u64 = 20;

/// Damage dealt by an enemy projectile.
pub const ENEMY_PROJECTILE_DAMAGE: u64 = 10;

/// Largest value accepted for any tuning constant.
pub const TUNING_LIMIT: i64 = 10_000_000;

/// Largest speed accepted for a dash or a projectile.
pub const SPEED_LIMIT: i64 = 1_000_000;

/// Largest simulation time and dash duration, in milliseconds.
pub const TIME_LIMIT: u64 = 1_000_000_000_000;

/// Largest physics step, in milliseconds.
pub const DT_LIMIT: u64 = 10_000;

/// Tuning constants of the grapple controller.
#[derive(Clone, Copy, Debug)]
pub struct GrapplingHookConfig {
    /// Spring constant of the Hooke's-law restoring force.
    pub spring_force: i64,
    /// Damping constant applied against radial motion.
    pub spring_dampening: i64,
    /// Magnitude of the impulse a pull-release applies to the enemy.
    pub pull_impulse: i64,
}

impl GrapplingHookConfig {
    /// All constants are non-negative and within the tuning limit.
    pub open spec fn wf(self) -> bool {
        0 <= self.spring_force <= TUNING_LIMIT && 0 <= self.spring_dampening <= TUNING_LIMIT
            && 0 <= self.pull_impulse <= TUNING_LIMIT
    }
}

impl Default for GrapplingHookConfig {
    /// The tuned defaults of the grapple controller.
    fn default() -> (c: Self)
        ensures
            c.spring_force == DEFAULT_GRAPPLING_HOOK_SPRING_FORCE,
            c.spring_dampening == DEFAULT_GRAPPLING_HOOK_DAMPENING,
            c.pull_impulse == DEFAULT_GRAPPLE_PULL_IMPULSE,
            c.wf(),
    {
        GrapplingHookConfig {
            spring_force: DEFAULT_GRAPPLING_HOOK_SPRING_FORCE,
            spring_dampening: DEFAULT_GRAPPLING_HOOK_DAMPENING,
            pull_impulse: DEFAULT_GRAPPLE_PULL_IMPULSE,
        }
    }
}

}
