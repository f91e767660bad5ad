//! The grapple controller's records and per-record transitions.
//!
//! A grapple flow spawns a hook actor that flies toward a world target.
//! Attachment resolution inspects the hook's contacts once per tick:
//! a hostile contact wins and yields a pull, any other contact anchors
//! the hook to the world and yields a spring swing. Attachment is
//! irreversible. The swing applies a Hooke's-law restoring impulse and a
//! damping impulse along the rope axis; the pull ends with a one-shot
//! yank on the enemy when the grapple is released.

use vstd::prelude::*;

use crate::config::{GrapplingHookConfig, DT_LIMIT};
use crate::math::{dist, dist_s, scale_toward, tdiv, Vec2, DIST_LIMIT, POS_LIMIT};
use crate::math::lemma_dist_dominates_components;

verus! {

/// Where a hook is attached. The state moves out of `Unattached` exactly
/// once and never changes again.
#[derive(Clone, Copy, Debug, PartialEq, Eq, Structural)]
pub enum HookAttachment {
    /// Still in flight.
    Unattached,
    /// Anchored to the world at the hook's position.
    AttachedWorld,
    /// Riding the struck enemy.
    AttachedEnemy(u64),
}

/// Record of a hook actor.
#[derive(Clone, Copy, Debug, PartialEq, Eq, Structural)]
pub struct GrapplingHook {
    /// The actor that fired the hook.
    pub shooter: u64,
    /// The hook's attachment state.
    pub attached_to: HookAttachment,
}

/// Transient record of a shooter swinging from a world anchor.
#[derive(Clone, Copy, Debug)]
pub struct Swinging {
    /// The hook actor this swing hangs from.
    pub hook_entity: u64,
    /// World-space anchor point, fixed at attachment time.
    pub anchor: Vec2,
    /// Rest length of the rope: shooter-to-anchor distance at attachment.
    pub rope_rest_length: i64,
    /// Distance to the anchor measured on the previous tick, if any.
    pub previous_distance_from_hook: Option<i64>,
}

impl Swinging {
    /// The record's values are within machine limits.
    pub open spec fn wf(self) -> bool {
        self.anchor.bounded(POS_LIMIT) && 0 <= self.rope_rest_length <= DIST_LIMIT
            && match self.previous_distance_from_hook {
            Some(p) => 0 <= p <= DIST_LIMIT,
            None => true,
        }
    }
}

/// Transient record of a shooter whose hook rides a hostile target.
#[derive(Clone, Copy, Debug)]
pub struct PullingEnemy {
    /// The hook actor that struck the enemy.
    pub hook_entity: u64,
    /// The enemy being pulled.
    pub enemy: u64,
    /// Shooter-to-hook distance at attachment time.
    pub rope_length: i64,
}

impl PullingEnemy {
    /// The record's values are within machine limits.
    pub open spec fn wf(self) -> bool {
        0 <= self.rope_length <= DIST_LIMIT
    }
}

/// A shooter's grapple flow. Swinging and pulling are mutually exclusive
/// by construction.
#[derive(Clone, Copy, Debug)]
pub enum GrappleFlow {
    /// Not grappling.
    Idle,
    /// The hook is in flight and has not resolved yet.
    Unresolved {
        /// The hook actor spawned by the grapple start.
        hook_entity: u64,
    },
    /// The hook anchored to the world; the shooter swings from it.
    Swinging(Swinging),
    /// The hook struck an enemy; releasing will yank it.
    Pulling(PullingEnemy),
}

impl GrappleFlow {
    /// The flow's values are within machine limits.
    pub open spec fn wf(self) -> bool {
        match self {
            GrappleFlow::Swinging(sw) => sw.wf(),
            GrappleFlow::Pulling(p) => p.wf(),
            _ => true,
        }
    }
}

/// True when some contact in `contacts` is a hostile actor.
pub open spec fn has_enemy_contact(contacts: Seq<u64>, enemies: Set<u64>) -> bool
    decreases contacts.len(),
{
    if contacts.len() == 0 {
        false
    } else {
        enemies.contains(contacts[0]) || has_enemy_contact(contacts.skip(1), enemies)
    }
}

/// The first hostile contact in `contacts` (meaningful only when
/// `has_enemy_contact` holds).
pub open spec fn first_enemy_contact(contacts: Seq<u64>, enemies: Set<u64>) -> u64
    decreases contacts.len(),
{
    if contacts.len() == 0 {
        0
    } else if enemies.contains(contacts[0]) {
        contacts[0]
    } else {
        first_enemy_contact(contacts.skip(1), enemies)
    }
}

/// The attachment an unattached hook resolves to, given its contacts in
/// deterministic order (the shooter itself already excluded): the first
/// hostile contact wins; otherwise any contact anchors to the world; no
/// contact leaves the hook in flight.
pub open spec fn pick_attachment(contacts: Seq<u64>, enemies: Set<u64>) -> HookAttachment {
    if has_enemy_contact(contacts, enemies) {
        HookAttachment::AttachedEnemy(first_enemy_contact(contacts, enemies))
    } else if contacts.len() > 0 {
        HookAttachment::AttachedWorld
    } else {
        HookAttachment::Unattached
    }
}

/// One attachment-resolution tick of a hook record: an attached hook is
/// left alone; an unattached one takes whatever `pick_attachment` says.
pub open spec fn hook_attach_step(h: GrapplingHook, contacts: Seq<u64>, enemies: Set<u64>)
    -> GrapplingHook {
    if h.attached_to is Unattached {
        GrapplingHook { shooter: h.shooter, attached_to: pick_attachment(contacts, enemies) }
    } else {
        h
    }
}

/// Repeated attachment resolution over a whole schedule of contact
/// snapshots, oldest first.
pub open spec fn run_attach_steps(h: GrapplingHook, inputs: Seq<(Seq<u64>, Set<u64>)>)
    -> GrapplingHook
    decreases inputs.len(),
{
    if inputs.len() == 0 {
        h
    } else {
        run_attach_steps(hook_attach_step(h, inputs[0].0, inputs[0].1), inputs.skip(1))
    }
}

/// Hook attachment is terminal: once a hook has left `Unattached`, any
/// number of further resolution ticks, whatever their contacts, leaves
/// its attachment target unchanged.
pub proof fn lemma_hook_attachment_terminal(h: GrapplingHook, inputs: Seq<(Seq<u64>, Set<u64>)>)
    requires
        !(h.attached_to is Unattached),
    ensures
        run_attach_steps(h, inputs) == h,
    decreases inputs.len(),
{
    if inputs.len() > 0 {
        lemma_hook_attachment_terminal(h, inputs.skip(1));
    }
}

/// A linear scan that rejects every contact before `k` agrees with the
/// recursive first-enemy definitions.
pub proof fn lemma_enemy_scan(contacts: Seq<u64>, enemies: Set<u64>, k: int)
    requires
        0 <= k <= contacts.len(),
        forall|j: int| 0 <= j < k ==> !enemies.contains(#[trigger] contacts[j]),
    ensures
        k == contacts.len() ==> !has_enemy_contact(contacts, enemies),
        k < contacts.len() && enemies.contains(contacts[k]) ==> has_enemy_contact(
            contacts,
            enemies,
        ) && first_enemy_contact(contacts, enemies) == contacts[k],
    decreases k,
{
    if k == 0 {
        if contacts.len() > 0 && enemies.contains(contacts[0]) {
        }
    } else {
        let rest = contacts.skip(1);
        assert(!enemies.contains(contacts[0]));
        assert forall|j: int| 0 <= j < k - 1 implies !enemies.contains(#[trigger] rest[j]) by {
            assert(rest[j] == contacts[j + 1]);
        }
        lemma_enemy_scan(rest, enemies, k - 1);
        if k < contacts.len() {
            assert(rest[k - 1] == contacts[k]);
        }
    }
}

/// The signed magnitude of a scaled impulse: `amount` times a tuning
/// constant, times the step length in milliseconds, divided by 1000 —
/// so the tuning constants read in whole seconds.
pub open spec fn impulse_scale(amount: int, tuning: int, dt_ms: int) -> int {
    tdiv(amount * (tuning * dt_ms), 1000)
}

/// The impulse of signed magnitude `m` directed from `from` toward `to`,
/// scaled componentwise by the rounded distance; zero when the two points
/// coincide (no direction exists).
pub open spec fn toward(from: Vec2, to: Vec2, m: int) -> Vec2 {
    let d = dist_s(from, to);
    if d == 0 {
        Vec2 { x: 0, y: 0 }
    } else {
        Vec2 { x: tdiv((to.x - from.x) * m, d) as i64, y: tdiv((to.y - from.y) * m, d) as i64 }
    }
}

/// How far the rope is stretched past its rest length (negative when the
/// shooter is closer than rest length).
pub open spec fn spring_discomfort(pos: Vec2, sw: Swinging) -> int {
    dist_s(pos, sw.anchor) - sw.rope_rest_length
}

/// Signed magnitude of the spring impulse, directed toward the anchor.
pub open spec fn spring_magnitude(pos: Vec2, sw: Swinging, cfg: GrapplingHookConfig, dt_ms: int)
    -> int {
    impulse_scale(spring_discomfort(pos, sw), cfg.spring_force as int, dt_ms)
}

/// Signed magnitude of the damping impulse, directed toward the anchor:
/// proportional to how much the anchor distance grew since the previous
/// tick, and zero on the first tick, when no previous distance exists.
pub open spec fn damp_magnitude(pos: Vec2, sw: Swinging, cfg: GrapplingHookConfig, dt_ms: int)
    -> int {
    match sw.previous_distance_from_hook {
        Some(prev) => impulse_scale(
            dist_s(pos, sw.anchor) - prev,
            cfg.spring_dampening as int,
            dt_ms,
        ),
        None => 0,
    }
}

/// The spring impulse a swing tick applies to the shooter.
pub open spec fn swing_spring_impulse(pos: Vec2, sw: Swinging, cfg: GrapplingHookConfig,
    dt_ms: int) -> Vec2 {
    toward(pos, sw.anchor, spring_magnitude(pos, sw, cfg, dt_ms))
}

/// The damping impulse a swing tick applies to the shooter.
pub open spec fn swing_damp_impulse(pos: Vec2, sw: Swinging, cfg: GrapplingHookConfig,
    dt_ms: int) -> Vec2 {
    toward(pos, sw.anchor, damp_magnitude(pos, sw, cfg, dt_ms))
}

/// The swing record after a tick: the previous-distance memory now holds
/// the distance just measured.
pub open spec fn swing_updated(pos: Vec2, sw: Swinging) -> Swinging {
    Swinging {
        hook_entity: sw.hook_entity,
        anchor: sw.anchor,
        rope_rest_length: sw.rope_rest_length,
        previous_distance_from_hook: Some(dist_s(pos, sw.anchor) as i64),
    }
}

/// One swing tick: computes the spring and damping impulses to apply to
/// the shooter and refreshes the previous-distance memory.
pub fn swing_tick(pos: Vec2, sw: &Swinging, cfg: &GrapplingHookConfig, dt_ms: u64)
    -> (r: (Vec2, Vec2, Swinging))
    requires
        pos.bounded(POS_LIMIT),
        sw.wf(),
        cfg.wf(),
        dt_ms <= DT_LIMIT,
    ensures
        r.0 == swing_spring_impulse(pos, *sw, *cfg, dt_ms as int),
        r.1 == swing_damp_impulse(pos, *sw, *cfg, dt_ms as int),
        r.2 == swing_updated(pos, *sw),
        r.2.wf(),
{
    let d = dist(pos, sw.anchor);
    let delta = Vec2 { x: sw.anchor.x - pos.x, y: sw.anchor.y - pos.y };
    proof {
        lemma_tuning_product_fits(cfg.spring_force as int, dt_ms as int);
        lemma_tuning_product_fits(cfg.spring_dampening as int, dt_ms as int);
    }
    let kdt: i64 = cfg.spring_force * (dt_ms as i64);
    let spring = if d == 0 {
        Vec2 { x: 0, y: 0 }
    } else {
        let discomfort: i64 = d - sw.rope_rest_length;
        proof {
            lemma_impulse_scale_fits(discomfort as int, kdt as int);
            lemma_dist_dominates_components(pos, sw.anchor, d as int);
        }
        let m = crate::math::muldiv(discomfort, kdt, 1000);
        scale_toward(delta, m, d)
    };
    let damp = if d == 0 {
        Vec2 { x: 0, y: 0 }
    } else {
        match sw.previous_distance_from_hook {
            Some(prev) => {
                let cdt: i64 = cfg.spring_dampening * (dt_ms as i64);
                let delta_d: i64 = d - prev;
                proof {
                    lemma_impulse_scale_fits(delta_d as int, cdt as int);
                    lemma_dist_dominates_components(pos, sw.anchor, d as int);
                }
                let m = crate::math::muldiv(delta_d, cdt, 1000);
                scale_toward(delta, m, d)
            },
            None => Vec2 { x: 0, y: 0 },
        }
    };
    let updated = Swinging {
        hook_entity: sw.hook_entity,
        anchor: sw.anchor,
        rope_rest_length: sw.rope_rest_length,
        previous_distance_from_hook: Some(d),
    };
    (spring, damp, updated)
}

/// The product of an in-range tuning constant and a step length fits in
/// 64 bits.
proof fn lemma_tuning_product_fits(tuning: int, dt_ms: int)
    requires
        0 <= tuning <= 10_000_000,
        0 <= dt_ms <= 10_000,
    ensures
        0 <= tuning * dt_ms <= 100_000_000_000,
{
    assert(0 <= tuning * dt_ms <= 100_000_000_000) by (nonlinear_arith)
        requires
            0 <= tuning <= 10_000_000,
            0 <= dt_ms <= 10_000,
    ;
}

/// A scaled impulse magnitude fits comfortably in 64 bits for in-range
/// distances and tuning products.
proof fn lemma_impulse_scale_fits(amount: int, tuning_dt: int)
    requires
        -6_000_000 <= amount <= 6_000_000,
        0 <= tuning_dt <= 100_000_000_000,
    ensures
        i64::MIN <= amount * tuning_dt <= i64::MAX,
        -600_000_000_000_000_000 <= tdiv(amount * tuning_dt, 1000) <= 600_000_000_000_000_000,
{
    let p = amount * tuning_dt;
    assert(-600_000_000_000_000_000 <= p <= 600_000_000_000_000_000) by (nonlinear_arith)
        requires
            -6_000_000 <= amount <= 6_000_000,
            0 <= tuning_dt <= 100_000_000_000,
            p == amount * tuning_dt,
    ;
    if p >= 0 {
        assert(tdiv(p, 1000) == p / 1000);
        assert(0 <= p / 1000 <= p);
    } else {
        assert(tdiv(p, 1000) == -((-p) / 1000));
        assert(0 <= (-p) / 1000 <= -p);
    }
}

/// Swing impulse direction law: the spring impulse points toward the
/// anchor exactly when the rope is stretched past its rest length, away
/// when shorter, and the damping impulse points toward the anchor exactly
/// when the shooter receded since the previous tick, away when it
/// approached, and vanishes when the radial distance did not change. The
/// damper therefore always removes radial kinetic energy.
pub proof fn lemma_swing_impulses_oppose_displacement(pos: Vec2, sw: Swinging,
    cfg: GrapplingHookConfig, dt_ms: int, prev: int)
    requires
        cfg.wf(),
        0 <= dt_ms,
        sw.previous_distance_from_hook is Some,
        prev == sw.previous_distance_from_hook->Some_0 as int,
    ensures
        spring_discomfort(pos, sw) >= 0 ==> spring_magnitude(pos, sw, cfg, dt_ms) >= 0,
        spring_discomfort(pos, sw) <= 0 ==> spring_magnitude(pos, sw, cfg, dt_ms) <= 0,
        dist_s(pos, sw.anchor) >= prev ==> damp_magnitude(pos, sw, cfg, dt_ms) >= 0,
        dist_s(pos, sw.anchor) <= prev ==> damp_magnitude(pos, sw, cfg, dt_ms) <= 0,
        dist_s(pos, sw.anchor) == prev ==> damp_magnitude(pos, sw, cfg, dt_ms) == 0,
{
    let disc = spring_discomfort(pos, sw);
    let dd = dist_s(pos, sw.anchor) - prev;
    lemma_signed_scale_sign(disc, cfg.spring_force as int, dt_ms);
    lemma_signed_scale_sign(dd, cfg.spring_dampening as int, dt_ms);
}

/// The sign of a scaled impulse follows the sign of the scaled amount.
proof fn lemma_signed_scale_sign(amount: int, tuning: int, dt_ms: int)
    requires
        0 <= tuning,
        0 <= dt_ms,
    ensures
        amount >= 0 ==> impulse_scale(amount, tuning, dt_ms) >= 0,
        amount <= 0 ==> impulse_scale(amount, tuning, dt_ms) <= 0,
        amount == 0 ==> impulse_scale(amount, tuning, dt_ms) == 0,
{
    let td = tuning * dt_ms;
    assert(td >= 0) by (nonlinear_arith)
        requires
            0 <= tuning,
            0 <= dt_ms,
            td == tuning * dt_ms,
    ;
    if amount >= 0 {
        assert(amount * td >= 0) by (nonlinear_arith)
            requires
                amount >= 0,
                td >= 0,
        ;
        assert(tdiv(amount * td, 1000) == (amount * td) / 1000);
        assert((amount * td) / 1000 >= 0);
    }
    if amount <= 0 {
        assert(amount * td <= 0) by (nonlinear_arith)
            requires
                amount <= 0,
                td >= 0,
        ;
        if amount * td < 0 {
            assert(tdiv(amount * td, 1000) == -((-(amount * td)) / 1000));
            assert((-(amount * td)) / 1000 >= 0);
        }
    }
}

}
