//! The dash controller: a timed velocity override with a grace-frame
//! collision cutoff.
//!
//! A dashing actor carries a [`Dashing`] record. Every physics tick the
//! record is stepped: the dash ends when its duration has elapsed, or —
//! from its second tick on — when the actor touches any other body. The
//! first tick is a grace frame: a contact that predates the dash's own
//! velocity change (such as the floor the actor was resting on) must not
//! cut the dash short.

use vstd::prelude::*;

use crate::config::{SPEED_LIMIT, TIME_LIMIT};
use crate::math::{Vec2, DIR_SCALE};

verus! {

/// Transient record of an actor that is currently dashing.
#[derive(Clone, Copy, Debug)]
pub struct Dashing {
    /// Direction of travel, scaled by `DIR_SCALE`.
    pub direction: Vec2,
    /// Dash speed in world units per second.
    pub speed: i64,
    /// How long the dash lasts, in milliseconds.
    pub duration_ms: u64,
    /// Absolute simulation time at which the dash started, in milliseconds.
    pub start_time_ms: u64,
    /// False only during the grace frame, before the first collision check.
    pub started_moving: bool,
}

impl Dashing {
    /// The record's values are within machine limits.
    pub open spec fn wf(self) -> bool {
        self.direction.bounded(DIR_SCALE) && 0 <= self.speed <= SPEED_LIMIT
            && self.duration_ms <= TIME_LIMIT && self.start_time_ms <= TIME_LIMIT
    }

    /// The dash's duration has elapsed at time `now`.
    pub open spec fn timed_out(self, now: u64) -> bool {
        now > self.start_time_ms + self.duration_ms
    }
}

/// What one tick does to a dash record.
#[derive(Clone, Copy, Debug)]
pub enum DashOutcome {
    /// The dash goes on, with the updated record.
    StillDashing(Dashing),
    /// The dash is over: velocity is zeroed and gravity restored.
    Ended,
}

/// One per-tick step of a dash record: end on timeout; otherwise spend
/// the grace frame, if it is still due; otherwise end on any contact.
pub open spec fn dash_step(d: Dashing, now: u64, touching: bool) -> DashOutcome {
    if d.timed_out(now) {
        DashOutcome::Ended
    } else if !d.started_moving {
        DashOutcome::StillDashing(
            Dashing {
                direction: d.direction,
                speed: d.speed,
                duration_ms: d.duration_ms,
                start_time_ms: d.start_time_ms,
                started_moving: true,
            },
        )
    } else if touching {
        DashOutcome::Ended
    } else {
        DashOutcome::StillDashing(d)
    }
}

/// Executable form of [`dash_step`].
pub fn dash_step_exec(d: &Dashing, now: u64, touching: bool) -> (r: DashOutcome)
    requires
        d.wf(),
    ensures
        r == dash_step(*d, now, touching),
{
    if now > d.start_time_ms + d.duration_ms {
        DashOutcome::Ended
    } else if !d.started_moving {
        DashOutcome::StillDashing(
            Dashing {
                direction: d.direction,
                speed: d.speed,
                duration_ms: d.duration_ms,
                start_time_ms: d.start_time_ms,
                started_moving: true,
            },
        )
    } else if touching {
        DashOutcome::Ended
    } else {
        DashOutcome::StillDashing(*d)
    }
}

/// Dash timeout law: whatever the contacts, a tick strictly past the
/// deadline ends the dash, and a collision-free tick at or before the
/// deadline keeps it (so the record is removed exactly at the first tick
/// past `start + duration`).
pub proof fn lemma_dash_timeout(d: Dashing, now: u64, touching: bool)
    ensures
        d.timed_out(now) ==> dash_step(d, now, touching) is Ended,
        !d.timed_out(now) ==> dash_step(d, now, false) is StillDashing,
{
}

/// Dash grace-frame law: a dash whose grace frame is still due survives a
/// tick with a pre-existing contact, but the stepped record is terminated
/// by a contact on the following tick.
pub proof fn lemma_dash_grace_frame(d: Dashing, now1: u64, now2: u64)
    requires
        !d.started_moving,
        !d.timed_out(now1),
        !d.timed_out(now2),
    ensures
        dash_step(d, now1, true) is StillDashing,
        (dash_step(d, now1, true) matches DashOutcome::StillDashing(d2)
            && dash_step(d2, now2, true) is Ended),
{
}

}
