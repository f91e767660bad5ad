//! The simulation world: every actor's mirrored physics state and
//! transient records, the touch relation maintained from the physics
//! engine's start/end notifications, the outgoing notification stream,
//! and the command stream handed back to the engine.
//!
//! Per tick the caller is expected to (1) feed every touch transition
//! through [`World::on_touch_start`] / [`World::on_touch_end`], (2) feed
//! intent events, (3) call [`World::fixed_tick`], and (4) drain the
//! command stream into the physics engine; [`World::step`] performs that
//! ordering for a whole batch of events.

use vstd::prelude::*;

use crate::config::{GrapplingHookConfig, SPEED_LIMIT, TIME_LIMIT, TUNING_LIMIT, DT_LIMIT};
use crate::dash::{dash_step, dash_step_exec, DashOutcome, Dashing};
use crate::grapple::{first_enemy_contact, has_enemy_contact, lemma_enemy_scan, pick_attachment, swing_damp_impulse, swing_spring_impulse, swing_tick, swing_updated, GrappleFlow, GrapplingHook, HookAttachment, PullingEnemy, Swinging};
use crate::math::{Vec2, DIR_SCALE, POS_LIMIT, VEL_LIMIT};
use crate::projectile::{remove_id, remove_id_s, retain_contacts, retain_contacts_s, Projectile};

verus! {

/// Health of a damageable actor; never negative.
#[derive(Clone, Copy, Debug, PartialEq, Eq, Structural)]
pub struct Health(pub u64);

/// Reserved damage multiplier of a damageable actor (unused).
#[derive(Clone, Copy, Debug, PartialEq, Eq, Structural)]
pub struct Defense(pub u64);

/// Any simulated body: player, hostile, grapple hook or projectile.
///
/// Positions and velocities mirror the physics engine's state; capability
/// tags say which intents the actor accepts; at most one transient record
/// of each kind is active at a time.
#[derive(Debug)]
pub struct Actor {
    /// Stable identifier; never reused within one world.
    pub id: u64,
    /// Mirrored world-space position.
    pub pos: Vec2,
    /// Mirrored velocity.
    pub vel: Vec2,
    /// Mirrored gravity scale: 1 normally, 0 while dashing or ballistic.
    pub gravity_scale: i64,
    /// May start dashes.
    pub can_dash: bool,
    /// May start grapples.
    pub can_grapple: bool,
    /// Is a valid hostile target for hooks.
    pub is_enemy: bool,
    /// May be hit by projectiles.
    pub hittable: bool,
    /// Health, if the actor is damageable.
    pub health: Option<Health>,
    /// Reserved damage multiplier, if any.
    pub defense: Option<Defense>,
    /// Dash record, while dashing.
    pub dash: Option<Dashing>,
    /// Grapple flow of this actor as a shooter.
    pub grapple: GrappleFlow,
    /// Hook record, when this actor is a grapple hook.
    pub hook: Option<GrapplingHook>,
    /// Projectile record, when this actor is a projectile.
    pub projectile: Option<Projectile>,
}

impl Actor {
    /// The actor's values are within machine limits.
    pub open spec fn wf(self) -> bool {
        &&& self.pos.bounded(POS_LIMIT)
        &&& self.vel.bounded(VEL_LIMIT)
        &&& self.dash matches Some(d) ==> d.wf()
        &&& self.grapple.wf()
        &&& self.projectile matches Some(p) ==> p.wf()
    }
}

/// An outgoing notification for the rest of the game (UI, audio).
#[derive(Clone, Copy, Debug, PartialEq, Eq, Structural)]
pub enum Notification {
    /// A hook resolved its attachment.
    GrappleAttached {
        /// The shooter whose hook attached.
        shooter: u64,
        /// Where the hook attached.
        attachment: HookAttachment,
    },
    /// A projectile resolved its single hit.
    ProjectileHit {
        /// The projectile that hit.
        projectile: u64,
        /// The actor that was struck.
        target: u64,
        /// Damage dealt to the target.
        damage: u64,
        /// The knockback impulse applied to the target.
        knockback_impulse: Vec2,
    },
}

/// A write handed back to the physics engine.
#[derive(Clone, Copy, Debug, PartialEq, Eq, Structural)]
pub enum PhysicsCommand {
    /// Overwrite the actor's velocity.
    SetVelocity {
        /// Target actor.
        actor: u64,
        /// New velocity.
        velocity: Vec2,
    },
    /// Overwrite the actor's gravity scale.
    SetGravityScale {
        /// Target actor.
        actor: u64,
        /// New scale: 0 suspends gravity, 1 restores it.
        scale: i64,
    },
    /// Apply a one-shot impulse to the actor.
    ApplyImpulse {
        /// Target actor.
        actor: u64,
        /// The impulse.
        impulse: Vec2,
    },
    /// Teleport the actor (hooks riding their target).
    SetPosition {
        /// Target actor.
        actor: u64,
        /// New position.
        position: Vec2,
    },
    /// Wake the actor's physics body from sleep.
    Wake {
        /// Target actor.
        actor: u64,
    },
    /// Remove the actor's body from the engine.
    Despawn {
        /// Target actor.
        actor: u64,
    },
}

/// Some actor in `s` carries `id`.
pub open spec fn has_actor(s: Seq<Actor>, id: u64) -> bool {
    exists|i: int| 0 <= i < s.len() && s[i].id == id
}

/// The index of the actor carrying `id` (meaningful under `has_actor`
/// and unique ids).
pub open spec fn idx_of(s: Seq<Actor>, id: u64) -> int {
    choose|i: int| 0 <= i < s.len() && s[i].id == id
}

/// The actor carrying `id` (meaningful under `has_actor` and unique ids).
pub open spec fn actor_of(s: Seq<Actor>, id: u64) -> Actor {
    s[idx_of(s, id)]
}

/// No two actors share an id.
pub open spec fn ids_unique(s: Seq<Actor>) -> bool {
    forall|i: int, j: int|
        #![trigger s[i].id, s[j].id]
        0 <= i < j < s.len() ==> s[i].id != s[j].id
}

/// Under unique ids, a found index is the index.
pub proof fn lemma_actor_at(s: Seq<Actor>, i: int)
    requires
        ids_unique(s),
        0 <= i < s.len(),
    ensures
        has_actor(s, s[i].id),
        idx_of(s, s[i].id) == i,
        actor_of(s, s[i].id) == s[i],
{
    assert(has_actor(s, s[i].id));
    let j = idx_of(s, s[i].id);
    assert(0 <= j < s.len() && s[j].id == s[i].id);
    if i != j {
        assert(s[i].id != s[j].id);
    }
}

/// `n` is a hit notification raised by projectile `p`.
pub open spec fn is_hit_for(n: Notification, p: u64) -> bool {
    n matches Notification::ProjectileHit { projectile, .. } && projectile == p
}

/// How many hit notifications projectile `p` has raised.
pub open spec fn hit_count(n: Seq<Notification>, p: u64) -> nat
    decreases n.len(),
{
    if n.len() == 0 {
        0
    } else {
        hit_count(n.drop_last(), p) + if is_hit_for(n.last(), p) {
            1nat
        } else {
            0nat
        }
    }
}

/// Every hit notification names a projectile below `bound`.
pub open spec fn hits_below(n: Seq<Notification>, bound: u64) -> bool {
    forall|k: int|
        0 <= k < n.len() ==> ((#[trigger] n[k]) matches Notification::ProjectileHit {
            projectile,
            ..
        } ==> projectile < bound)
}

/// A projectile id at or above the bound has raised no hit.
pub proof fn lemma_hits_below_fresh(n: Seq<Notification>, bound: u64, p: u64)
    requires
        hits_below(n, bound),
        p >= bound,
    ensures
        hit_count(n, p) == 0,
    decreases n.len(),
{
    if n.len() > 0 {
        assert(hits_below(n.drop_last(), bound));
        lemma_hits_below_fresh(n.drop_last(), bound, p);
        assert(!is_hit_for(n[n.len() - 1], p));
    }
}

/// Appending a notification adds its own contribution to each count.
pub proof fn lemma_hit_count_push(n: Seq<Notification>, x: Notification, p: u64)
    ensures
        hit_count(n.push(x), p) == hit_count(n, p) + if is_hit_for(x, p) {
            1nat
        } else {
            0nat
        },
{
    assert(n.push(x).drop_last() =~= n);
    assert(n.push(x).last() == x);
}

/// The touch relation holds the unordered pair `{a, b}`.
pub open spec fn touches(t: Seq<(u64, u64)>, a: u64, b: u64) -> bool {
    exists|k: int|
        0 <= k < t.len() && (((#[trigger] t[k]).0 == a && t[k].1 == b) || (t[k].0 == b && t[k].1
            == a))
}

/// Actor `id` touches something.
pub open spec fn touches_any(t: Seq<(u64, u64)>, id: u64) -> bool {
    exists|k: int| 0 <= k < t.len() && ((#[trigger] t[k]).0 == id || t[k].1 == id)
}

/// The contacts of `id` in the touch relation, in insertion order,
/// skipping `excl` (the hook's shooter), from pair `k` on.
pub open spec fn contacts_from(t: Seq<(u64, u64)>, id: u64, excl: Option<u64>, k: int)
    -> Seq<u64>
    decreases t.len() - k,
{
    if k < 0 || k >= t.len() {
        Seq::empty()
    } else {
        let rest = contacts_from(t, id, excl, k + 1);
        let other = if t[k].0 == id {
            Some(t[k].1)
        } else if t[k].1 == id {
            Some(t[k].0)
        } else {
            None
        };
        match other {
            Some(o) => if excl != Some(o) {
                seq![o] + rest
            } else {
                rest
            },
            None => rest,
        }
    }
}

/// The contacts of `id`, in insertion order, skipping `excl`.
pub open spec fn contacts_of(t: Seq<(u64, u64)>, id: u64, excl: Option<u64>) -> Seq<u64> {
    contacts_from(t, id, excl, 0)
}

/// The hook a grapple flow is built around, if any.
pub open spec fn flow_hook_id(f: GrappleFlow) -> Option<u64> {
    match f {
        GrappleFlow::Idle => None,
        GrappleFlow::Unresolved { hook_entity } => Some(hook_entity),
        GrappleFlow::Swinging(sw) => Some(sw.hook_entity),
        GrappleFlow::Pulling(p) => Some(p.hook_entity),
    }
}

/// One queued input for a simulation step: a touch transition from the
/// physics engine, or an intent event from the input/targeting layer.
#[derive(Debug)]
pub enum InputEvent {
    /// Two bodies began touching.
    TouchStart {
        /// One body.
        a: u64,
        /// The other body.
        b: u64,
    },
    /// Two bodies stopped touching.
    TouchEnd {
        /// One body.
        a: u64,
        /// The other body.
        b: u64,
    },
    /// A dash intent with fully resolved world-space data.
    StartDash {
        /// The dashing actor.
        actor: u64,
        /// Direction of travel, scaled by `DIR_SCALE`.
        direction: Vec2,
        /// Dash speed in world units per second.
        speed: i64,
        /// Dash duration in milliseconds.
        duration_ms: u64,
    },
    /// A grapple-start intent aimed at a world point.
    StartGrapple {
        /// The shooter.
        actor: u64,
        /// The world-space target point.
        target: Vec2,
    },
    /// The grapple input was released.
    EndGrapple {
        /// The shooter.
        actor: u64,
    },
    /// A fire intent with fully resolved world-space data.
    FireProjectile {
        /// Muzzle position.
        position: Vec2,
        /// Direction of travel, scaled by `DIR_SCALE`.
        direction: Vec2,
        /// Speed in world units per second.
        speed: i64,
        /// Damage dealt on a hit.
        damage: u64,
        /// Knockback magnitude dealt on a hit.
        knockback: i64,
        /// Actors excluded until they separate from the projectile.
        exclude: Vec<u64>,
    },
}

/// The event's payload is within machine limits.
pub open spec fn event_ok(e: InputEvent) -> bool {
    match e {
        InputEvent::TouchStart { a, b } => a != b,
        InputEvent::TouchEnd { a, b } => a != b,
        InputEvent::StartDash { actor, direction, speed, duration_ms } => direction.bounded(
            DIR_SCALE,
        ) && 0 <= speed <= SPEED_LIMIT && duration_ms <= TIME_LIMIT,
        InputEvent::StartGrapple { actor, target } => target.bounded(POS_LIMIT),
        InputEvent::EndGrapple { actor } => true,
        InputEvent::FireProjectile { position, direction, speed, damage, knockback, exclude } =>
            position.bounded(POS_LIMIT) && direction.bounded(DIR_SCALE) && 0 <= speed
            <= SPEED_LIMIT && 0 <= knockback <= TUNING_LIMIT,
    }
}

/// The combat/movement simulation core's whole state.
pub struct World {
    /// Grapple tuning constants, injected at startup.
    pub config: GrapplingHookConfig,
    /// All live actors, in spawn order.
    pub actors: Vec<Actor>,
    /// Unordered pairs of actors currently touching, in insertion order.
    pub touching: Vec<(u64, u64)>,
    /// Outgoing notifications, append-only.
    pub notifications: Vec<Notification>,
    /// Outgoing physics writes, append-only; the driver drains them.
    pub commands: Vec<PhysicsCommand>,
    /// The next id to hand out; ids are never reused.
    pub next_id: u64,
}

impl World {
    /// The world's invariant: unique in-range ids, well-formed actors,
    /// irreflexive touch pairs naming handed-out ids only, at most one
    /// hook per shooter, a live
    /// shooter of a hook is in the grapple flow built around that very
    /// hook, and every projectile has raised at most one hit — none
    /// while it is still live and non-terminal, and none under any id
    /// not yet handed out.
    pub open spec fn wf(self) -> bool {
        &&& self.config.wf()
        &&& ids_unique(self.actors@)
        &&& forall|i: int| 0 <= i < self.actors@.len() ==> (#[trigger] self.actors@[i]).wf()
        &&& forall|i: int|
            0 <= i < self.actors@.len() ==> (#[trigger] self.actors@[i]).id < self.next_id
        &&& forall|k: int|
            0 <= k < self.touching@.len() ==> (#[trigger] self.touching@[k]).0
                != self.touching@[k].1
        &&& forall|k: int|
            0 <= k < self.touching@.len() ==> ((#[trigger] self.touching@[k]).0 < self.next_id
                && self.touching@[k].1 < self.next_id)
        &&& hits_below(self.notifications@, self.next_id)
        &&& forall|p: u64| #[trigger] hit_count(self.notifications@, p) <= 1
        &&& forall|i: int|
            0 <= i < self.actors@.len() ==> ((#[trigger] self.actors@[i]).projectile matches Some(
                pr,
            ) && !pr.terminal ==> hit_count(self.notifications@, self.actors@[i].id) == 0)
        &&& forall|i: int|
            0 <= i < self.actors@.len() ==> ((#[trigger] self.actors@[i]).hook matches Some(h)
                ==> h.shooter < self.next_id)
        &&& forall|i: int, j: int|
            #![trigger self.actors@[i].hook, self.actors@[j].hook]
            0 <= i < j < self.actors@.len() && self.actors@[i].hook is Some
                && self.actors@[j].hook is Some ==> self.actors@[i].hook->Some_0.shooter
                != self.actors@[j].hook->Some_0.shooter
        &&& forall|i: int, j: int|
            #![trigger self.actors@[i].hook, self.actors@[j].id]
            0 <= i < self.actors@.len() && 0 <= j < self.actors@.len()
                && self.actors@[i].hook is Some && self.actors@[j].id
                == self.actors@[i].hook->Some_0.shooter ==> flow_hook_id(self.actors@[j].grapple)
                == Some(self.actors@[i].id)
    }

    /// An empty world with the given tuning constants.
    pub fn new(config: GrapplingHookConfig) -> (w: World)
        requires
            config.wf(),
        ensures
            w.wf(),
            w.config == config,
            w.actors@.len() == 0,
            w.touching@.len() == 0,
            w.notifications@.len() == 0,
            w.commands@.len() == 0,
            w.next_id == 0,
    {
        World {
            config,
            actors: Vec::new(),
            touching: Vec::new(),
            notifications: Vec::new(),
            commands: Vec::new(),
            next_id: 0,
        }
    }

    /// The index of the actor carrying `id`, if it is live.
    fn find_actor(&self, id: u64) -> (r: Option<usize>)
        ensures
            match r {
                Some(i) => i < self.actors@.len() && self.actors@[i as int].id == id && has_actor(
                    self.actors@,
                    id,
                ),
                None => !has_actor(self.actors@, id),
            },
    {
        let mut i: usize = 0;
        while i < self.actors.len()
            invariant
                0 <= i <= self.actors@.len(),
                forall|j: int| 0 <= j < i ==> (#[trigger] self.actors@[j]).id != id,
            decreases self.actors@.len() - i,
        {
            if self.actors[i].id == id {
                return Some(i);
            }
            i = i + 1;
        }
        None
    }

    /// The freshly spawned plain actor: at rest, under normal gravity,
    /// with no transient records.
    pub open spec fn spawned_actor(id: u64, pos: Vec2, can_dash: bool, can_grapple: bool,
        is_enemy: bool, hittable: bool, health: Option<Health>) -> Actor {
        Actor {
            id,
            pos,
            vel: Vec2 { x: 0, y: 0 },
            gravity_scale: 1,
            can_dash,
            can_grapple,
            is_enemy,
            hittable,
            health,
            defense: None,
            dash: None,
            grapple: GrappleFlow::Idle,
            hook: None,
            projectile: None,
        }
    }

    /// Spawns a plain actor (player, hostile, ground) with the given
    /// capability tags, and returns its id. Spawning is the level
    /// logic's business; the core only records what it must know.
    pub fn spawn_actor(&mut self, pos: Vec2, can_dash: bool, can_grapple: bool, is_enemy: bool,
        hittable: bool, health: Option<Health>) -> (id: u64)
        requires
            old(self).wf(),
            pos.bounded(POS_LIMIT),
            old(self).next_id < u64::MAX,
        ensures
            final(self).wf(),
            id == old(self).next_id,
            final(self).next_id == old(self).next_id + 1,
            final(self).actors@ == old(self).actors@.push(
                Self::spawned_actor(id, pos, can_dash, can_grapple, is_enemy, hittable, health),
            ),
            final(self).touching@ == old(self).touching@,
            final(self).notifications@ == old(self).notifications@,
            final(self).commands@ == old(self).commands@,
            final(self).config == old(self).config,
    {
        let id = self.next_id;
        let actor = Actor {
            id,
            pos,
            vel: Vec2 { x: 0, y: 0 },
            gravity_scale: 1,
            can_dash,
            can_grapple,
            is_enemy,
            hittable,
            health,
            defense: None,
            dash: None,
            grapple: GrappleFlow::Idle,
            hook: None,
            projectile: None,
        };
        self.actors.push(actor);
        self.next_id = self.next_id + 1;
        proof {
            let s = self.actors@;
            let olds = old(self).actors@;
            assert forall|a: int, b: int|
                #![trigger s[a].id, s[b].id]
                0 <= a < b < s.len() implies s[a].id != s[b].id by {
                if b < olds.len() {
                    assert(s[a] == olds[a] && s[b] == olds[b]);
                } else {
                    assert(s[b].id == old(self).next_id);
                    assert(s[a] == olds[a]);
                }
            }
            assert forall|p: u64| #[trigger] hit_count(self.notifications@, p) <= 1 by {
                assert(hit_count(old(self).notifications@, p) <= 1);
            }
            assert forall|i: int|
                0 <= i < s.len() implies ((#[trigger] s[i]).projectile matches Some(pr)
                && !pr.terminal ==> hit_count(self.notifications@, s[i].id) == 0) by {
                if i < olds.len() {
                    assert(s[i] == olds[i]);
                } else {
                    assert(s[i].projectile is None);
                }
            }
            assert forall|i: int|
                0 <= i < s.len() implies ((#[trigger] s[i]).hook matches Some(h) ==> h.shooter
                < self.next_id) by {
                if i < olds.len() {
                    assert(s[i] == olds[i]);
                } else {
                    assert(s[i].hook is None);
                }
            }
            assert forall|a: int, b: int|
                #![trigger s[a].hook, s[b].hook]
                0 <= a < b < s.len() && s[a].hook is Some && s[b].hook is Some implies s[a]
                .hook->Some_0.shooter != s[b].hook->Some_0.shooter by {
                assert(s[b].hook == if b < olds.len() { olds[b].hook } else { None });
                assert(s[a] == olds[a]);
            }
            assert forall|a: int, b: int|
                #![trigger s[a].hook, s[b].id]
                0 <= a < s.len() && 0 <= b < s.len() && s[a].hook is Some && s[b].id == s[a]
                .hook->Some_0.shooter implies flow_hook_id(s[b].grapple) == Some(s[a].id) by {
                assert(s[a].hook == if a < olds.len() { olds[a].hook } else { None });
                assert(olds[a].hook matches Some(h) ==> h.shooter < old(self).next_id);
                if b < olds.len() {
                    assert(s[b] == olds[b]);
                } else {
                    assert(s[b].id == old(self).next_id);
                }
            }
        }
        id
    }

    /// Removes the actor carrying `id` from the core's mirror (external
    /// cleanup: a body deleted by the level logic). A no-op when no such
    /// actor is live.
    pub fn despawn_actor(&mut self, id: u64)
        requires
            old(self).wf(),
        ensures
            final(self).wf(),
            has_actor(old(self).actors@, id) ==> final(self).actors@ == old(self).actors@.remove(
                idx_of(old(self).actors@, id),
            ),
            !has_actor(old(self).actors@, id) ==> *final(self) == *old(self),
            final(self).touching@ == old(self).touching@,
            final(self).notifications@ == old(self).notifications@,
            final(self).commands@ == old(self).commands@,
            final(self).config == old(self).config,
            final(self).next_id == old(self).next_id,
    {
        let found = self.find_actor(id);
        match found {
            Some(i) => {
                proof {
                    lemma_actor_at(self.actors@, i as int);
                }
                self.actors.remove(i);
                proof {
                    let olds = old(self).actors@;
                    let s = self.actors@;
                    assert forall|a: int, b: int|
                        #![trigger s[a].id, s[b].id]
                        0 <= a < b < s.len() implies s[a].id != s[b].id by {
                        let a0 = if a < i as int { a } else { a + 1 };
                        let b0 = if b < i as int { b } else { b + 1 };
                        assert(s[a] == olds[a0] && s[b] == olds[b0]);
                    }
                    assert forall|a: int| 0 <= a < s.len() implies (#[trigger] s[a]).wf()
                        && s[a].id < self.next_id by {
                        let a0 = if a < i as int { a } else { a + 1 };
                        assert(s[a] == olds[a0]);
                    }
                    assert forall|a: int|
                        0 <= a < s.len() implies ((#[trigger] s[a]).projectile matches Some(pr)
                        && !pr.terminal ==> hit_count(self.notifications@, s[a].id) == 0) by {
                        let a0 = if a < i as int { a } else { a + 1 };
                        assert(s[a] == olds[a0]);
                    }
                    assert forall|a: int, b: int|
                        #![trigger s[a].hook, s[b].hook]
                        0 <= a < b < s.len() && s[a].hook is Some && s[b].hook is Some implies s[a]
                        .hook->Some_0.shooter != s[b].hook->Some_0.shooter by {
                        let a0 = if a < i as int { a } else { a + 1 };
                        let b0 = if b < i as int { b } else { b + 1 };
                        assert(s[a] == olds[a0] && s[b] == olds[b0]);
                    }
                    assert forall|a: int, b: int|
                        #![trigger s[a].hook, s[b].id]
                        0 <= a < s.len() && 0 <= b < s.len() && s[a].hook is Some && s[b].id
                        == s[a].hook->Some_0.shooter implies flow_hook_id(s[b].grapple) == Some(
                        s[a].id,
                    ) by {
                        let a0 = if a < i as int { a } else { a + 1 };
                        let b0 = if b < i as int { b } else { b + 1 };
                        assert(s[a] == olds[a0] && s[b] == olds[b0]);
                    }
                }
            },
            None => {},
        }
    }

    /// Pushes the physics engine's integrated state for one actor back
    /// into the mirror. A no-op when no such actor is live.
    pub fn set_physics_state(&mut self, id: u64, pos: Vec2, vel: Vec2)
        requires
            old(self).wf(),
            pos.bounded(POS_LIMIT),
            vel.bounded(VEL_LIMIT),
        ensures
            final(self).wf(),
            has_actor(old(self).actors@, id) ==> final(self).actors@ == old(self).actors@.update(
                idx_of(old(self).actors@, id),
                (Actor {
                    pos,
                    vel,
                    ..actor_of(old(self).actors@, id)
                }),
            ),
            !has_actor(old(self).actors@, id) ==> *final(self) == *old(self),
            final(self).touching@ == old(self).touching@,
            final(self).notifications@ == old(self).notifications@,
            final(self).commands@ == old(self).commands@,
            final(self).config == old(self).config,
            final(self).next_id == old(self).next_id,
            final(self).actors@.len() == old(self).actors@.len(),
    {
        let found = self.find_actor(id);
        match found {
            Some(i) => {
                proof {
                    lemma_actor_at(self.actors@, i as int);
                }
                self.actors[i].pos = pos;
                self.actors[i].vel = vel;
                proof {
                    assert(self.actors@ =~= old(self).actors@.update(
                        i as int,
                        (Actor {
                            pos,
                            vel,
                            ..actor_of(old(self).actors@, id)
                        }),
                    ));
                    lemma_wf_after_update(*old(self), *self, i as int);
                }
            },
            None => {},
        }
    }

    /// The actor carrying `id` is live and currently dashing.
    pub open spec fn spec_is_dashing(s: Seq<Actor>, id: u64) -> bool {
        has_actor(s, id) && actor_of(s, id).dash is Some
    }

    /// The actor carrying `id` is live and currently swinging.
    pub open spec fn spec_is_swinging(s: Seq<Actor>, id: u64) -> bool {
        has_actor(s, id) && actor_of(s, id).grapple is Swinging
    }

    /// The actor carrying `id` is live and currently pulling an enemy.
    pub open spec fn spec_is_pulling(s: Seq<Actor>, id: u64) -> bool {
        has_actor(s, id) && actor_of(s, id).grapple is Pulling
    }

    /// The actor carrying `id` is live and in some grapple flow.
    pub open spec fn spec_is_grappling(s: Seq<Actor>, id: u64) -> bool {
        has_actor(s, id) && !(actor_of(s, id).grapple is Idle)
    }

    /// The health of the actor carrying `id`, if it is live and damageable.
    pub open spec fn spec_health_of(s: Seq<Actor>, id: u64) -> Option<Health> {
        if has_actor(s, id) {
            actor_of(s, id).health
        } else {
            None
        }
    }

    /// Whether the actor carrying `id` is dashing (for animation/UI).
    pub fn is_dashing(&self, id: u64) -> (r: bool)
        requires
            self.wf(),
        ensures
            r == Self::spec_is_dashing(self.actors@, id),
    {
        match self.find_actor(id) {
            Some(i) => {
                proof {
                    lemma_actor_at(self.actors@, i as int);
                }
                self.actors[i].dash.is_some()
            },
            None => false,
        }
    }

    /// Whether the actor carrying `id` is swinging (for animation/UI).
    pub fn is_swinging(&self, id: u64) -> (r: bool)
        requires
            self.wf(),
        ensures
            r == Self::spec_is_swinging(self.actors@, id),
    {
        match self.find_actor(id) {
            Some(i) => {
                proof {
                    lemma_actor_at(self.actors@, i as int);
                }
                match self.actors[i].grapple {
                    GrappleFlow::Swinging(_) => true,
                    _ => false,
                }
            },
            None => false,
        }
    }

    /// Whether the actor carrying `id` is pulling an enemy (for animation/UI).
    pub fn is_pulling(&self, id: u64) -> (r: bool)
        requires
            self.wf(),
        ensures
            r == Self::spec_is_pulling(self.actors@, id),
    {
        match self.find_actor(id) {
            Some(i) => {
                proof {
                    lemma_actor_at(self.actors@, i as int);
                }
                match self.actors[i].grapple {
                    GrappleFlow::Pulling(_) => true,
                    _ => false,
                }
            },
            None => false,
        }
    }

    /// Whether the actor carrying `id` is in a grapple flow (for animation/UI).
    pub fn is_grappling(&self, id: u64) -> (r: bool)
        requires
            self.wf(),
        ensures
            r == Self::spec_is_grappling(self.actors@, id),
    {
        match self.find_actor(id) {
            Some(i) => {
                proof {
                    lemma_actor_at(self.actors@, i as int);
                }
                match self.actors[i].grapple {
                    GrappleFlow::Idle => false,
                    _ => true,
                }
            },
            None => false,
        }
    }

    /// The health of the actor carrying `id`, if it is live and damageable.
    pub fn health_of(&self, id: u64) -> (r: Option<Health>)
        requires
            self.wf(),
        ensures
            r == Self::spec_health_of(self.actors@, id),
    {
        match self.find_actor(id) {
            Some(i) => {
                proof {
                    lemma_actor_at(self.actors@, i as int);
                }
                self.actors[i].health
            },
            None => None,
        }
    }

    /// The velocity set by a dash: direction (scaled by `DIR_SCALE`) times
    /// speed, truncated componentwise.
    pub open spec fn dash_velocity(direction: Vec2, speed: i64) -> Vec2 {
        Vec2 {
            x: crate::math::tdiv(direction.x * speed, DIR_SCALE as int) as i64,
            y: crate::math::tdiv(direction.y * speed, DIR_SCALE as int) as i64,
        }
    }

    /// A dash start is accepted only for a live actor with the can-dash
    /// capability.
    pub open spec fn dash_accepted(s: Seq<Actor>, id: u64) -> bool {
        has_actor(s, id) && actor_of(s, id).can_dash
    }

    /// The actor after a dash start: velocity overridden, gravity
    /// suspended, a fresh dash record with its grace frame still due.
    pub open spec fn dash_started_actor(a: Actor, direction: Vec2, speed: i64, duration_ms: u64,
        now_ms: u64) -> Actor {
        Actor {
            vel: Self::dash_velocity(direction, speed),
            gravity_scale: 0,
            dash: Some(
                Dashing {
                    direction,
                    speed,
                    duration_ms,
                    start_time_ms: now_ms,
                    started_moving: false,
                },
            ),
            ..a
        }
    }

    /// The physics writes a dash start emits.
    pub open spec fn dash_start_commands(id: u64, v: Vec2) -> Seq<PhysicsCommand> {
        seq![
            PhysicsCommand::SetVelocity { actor: id, velocity: v },
            PhysicsCommand::SetGravityScale { actor: id, scale: 0 },
        ]
    }

    /// The physics writes a dash end emits.
    pub open spec fn dash_end_commands(id: u64) -> Seq<PhysicsCommand> {
        seq![
            PhysicsCommand::SetVelocity { actor: id, velocity: (Vec2 { x: 0, y: 0 }) },
            PhysicsCommand::SetGravityScale { actor: id, scale: 1 },
        ]
    }

    /// The actor after a dash end: velocity zeroed, gravity restored,
    /// the dash record removed.
    pub open spec fn dash_ended_actor(a: Actor) -> Actor {
        Actor { vel: Vec2 { x: 0, y: 0 }, gravity_scale: 1, dash: None, ..a }
    }

    /// Starts a dash: overrides the actor's velocity with
    /// `direction * speed`, suspends gravity, and attaches a dash record.
    /// An actor without the can-dash capability, or no longer live,
    /// ignores the intent (logged upstream, no state change).
    pub fn start_dash(&mut self, id: u64, direction: Vec2, speed: i64, duration_ms: u64,
        now_ms: u64)
        requires
            old(self).wf(),
            direction.bounded(DIR_SCALE),
            0 <= speed <= SPEED_LIMIT,
            duration_ms <= TIME_LIMIT,
            now_ms <= TIME_LIMIT,
        ensures
            final(self).wf(),
            Self::dash_accepted(old(self).actors@, id) ==> final(self).actors@ == old(
                self,
            ).actors@.update(
                idx_of(old(self).actors@, id),
                Self::dash_started_actor(
                    actor_of(old(self).actors@, id),
                    direction,
                    speed,
                    duration_ms,
                    now_ms,
                ),
            ) && final(self).commands@ == old(self).commands@ + Self::dash_start_commands(
                id,
                Self::dash_velocity(direction, speed),
            ),
            !Self::dash_accepted(old(self).actors@, id) ==> *final(self) == *old(self),
            final(self).touching@ == old(self).touching@,
            final(self).notifications@ == old(self).notifications@,
            final(self).config == old(self).config,
            final(self).next_id == old(self).next_id,
            final(self).actors@.len() == old(self).actors@.len(),
    {
        match self.find_actor(id) {
            Some(i) => {
                proof {
                    lemma_actor_at(self.actors@, i as int);
                }
                if self.actors[i].can_dash {
                    let v = crate::math::scale_toward(direction, speed, DIR_SCALE);
                    self.actors[i].vel = v;
                    self.actors[i].gravity_scale = 0;
                    self.actors[i].dash = Some(
                        Dashing {
                            direction,
                            speed,
                            duration_ms,
                            start_time_ms: now_ms,
                            started_moving: false,
                        },
                    );
                    self.commands.push(PhysicsCommand::SetVelocity { actor: id, velocity: v });
                    self.commands.push(PhysicsCommand::SetGravityScale { actor: id, scale: 0 });
                    proof {
                        assert(self.actors@ =~= old(self).actors@.update(
                            i as int,
                            Self::dash_started_actor(
                                actor_of(old(self).actors@, id),
                                direction,
                                speed,
                                duration_ms,
                                now_ms,
                            ),
                        ));
                        assert(self.commands@ =~= old(self).commands@
                            + Self::dash_start_commands(
                            id,
                            Self::dash_velocity(direction, speed),
                        ));
                        lemma_wf_after_update(*old(self), *self, i as int);
                    }
                }
            },
            None => {},
        }
    }

    /// Ends a dash: zeroes the actor's velocity, restores gravity, and
    /// removes the dash record. A no-op for an actor that is not dashing
    /// (idempotent by design).
    pub fn end_dash(&mut self, id: u64)
        requires
            old(self).wf(),
        ensures
            final(self).wf(),
            Self::spec_is_dashing(old(self).actors@, id) ==> final(self).actors@ == old(
                self,
            ).actors@.update(
                idx_of(old(self).actors@, id),
                Self::dash_ended_actor(actor_of(old(self).actors@, id)),
            ) && final(self).commands@ == old(self).commands@ + Self::dash_end_commands(id),
            !Self::spec_is_dashing(old(self).actors@, id) ==> *final(self) == *old(self),
            final(self).touching@ == old(self).touching@,
            final(self).notifications@ == old(self).notifications@,
            final(self).config == old(self).config,
            final(self).next_id == old(self).next_id,
            final(self).actors@.len() == old(self).actors@.len(),
    {
        match self.find_actor(id) {
            Some(i) => {
                proof {
                    lemma_actor_at(self.actors@, i as int);
                }
                if self.actors[i].dash.is_some() {
                    self.actors[i].vel = Vec2 { x: 0, y: 0 };
                    self.actors[i].gravity_scale = 1;
                    self.actors[i].dash = None;
                    self.commands.push(
                        PhysicsCommand::SetVelocity {
                            actor: id,
                            velocity: Vec2 { x: 0, y: 0 },
                        },
                    );
                    self.commands.push(PhysicsCommand::SetGravityScale { actor: id, scale: 1 });
                    proof {
                        assert(self.actors@ =~= old(self).actors@.update(
                            i as int,
                            Self::dash_ended_actor(actor_of(old(self).actors@, id)),
                        ));
                        assert(self.commands@ =~= old(self).commands@ + Self::dash_end_commands(
                            id,
                        ));
                        lemma_wf_after_update(*old(self), *self, i as int);
                    }
                }
            },
            None => {},
        }
    }

    /// A grapple start is accepted only for a live actor with the
    /// can-grapple capability that is not already in a grapple flow.
    pub open spec fn grapple_accepted(s: Seq<Actor>, id: u64) -> bool {
        has_actor(s, id) && actor_of(s, id).can_grapple && actor_of(s, id).grapple is Idle
    }

    /// The freshly spawned hook actor: placed at the grapple's world
    /// target, unattached, remembering its shooter.
    pub open spec fn hook_actor(hook_id: u64, shooter: u64, target: Vec2) -> Actor {
        Actor {
            id: hook_id,
            pos: target,
            vel: Vec2 { x: 0, y: 0 },
            gravity_scale: 1,
            can_dash: false,
            can_grapple: false,
            is_enemy: false,
            hittable: false,
            health: None,
            defense: None,
            dash: None,
            grapple: GrappleFlow::Idle,
            hook: Some(
                GrapplingHook { shooter, attached_to: HookAttachment::Unattached },
            ),
            projectile: None,
        }
    }

    /// Starts a grapple: marks the shooter as in a grapple flow and
    /// spawns a hook actor at the world target point (its travel is the
    /// physics engine's business; collision with the hook decides
    /// arrival). Returns the hook's id, or `None` when the intent was
    /// ignored — the actor is missing, lacks the can-grapple capability,
    /// or is already in a grapple flow.
    pub fn start_grapple(&mut self, id: u64, target: Vec2) -> (r: Option<u64>)
        requires
            old(self).wf(),
            target.bounded(POS_LIMIT),
            old(self).next_id < u64::MAX,
        ensures
            final(self).wf(),
            Self::grapple_accepted(old(self).actors@, id) ==> r == Some(old(self).next_id)
                && final(self).next_id == old(self).next_id + 1 && final(self).actors@ == old(
                self,
            ).actors@.update(
                idx_of(old(self).actors@, id),
                (Actor {
                    grapple: (GrappleFlow::Unresolved { hook_entity: old(self).next_id }),
                    ..actor_of(old(self).actors@, id)
                }),
            ).push(Self::hook_actor(old(self).next_id, id, target)),
            !Self::grapple_accepted(old(self).actors@, id) ==> r is None && *final(self) == *old(
                self,
            ),
            final(self).touching@ == old(self).touching@,
            final(self).notifications@ == old(self).notifications@,
            final(self).commands@ == old(self).commands@,
            final(self).config == old(self).config,
    {
        match self.find_actor(id) {
            Some(i) => {
                proof {
                    lemma_actor_at(self.actors@, i as int);
                }
                let accepted = self.actors[i].can_grapple && match self.actors[i].grapple {
                    GrappleFlow::Idle => true,
                    _ => false,
                };
                if accepted {
                    let hook_id = self.next_id;
                    self.actors[i].grapple = GrappleFlow::Unresolved { hook_entity: hook_id };
                    let hook = Actor {
                        id: hook_id,
                        pos: target,
                        vel: Vec2 { x: 0, y: 0 },
                        gravity_scale: 1,
                        can_dash: false,
                        can_grapple: false,
                        is_enemy: false,
                        hittable: false,
                        health: None,
                        defense: None,
                        dash: None,
                        grapple: GrappleFlow::Idle,
                        hook: Some(
                            GrapplingHook {
                                shooter: id,
                                attached_to: HookAttachment::Unattached,
                            },
                        ),
                        projectile: None,
                    };
                    self.actors.push(hook);
                    self.next_id = self.next_id + 1;
                    proof {
                        lemma_start_grapple_wf(*old(self), *self, i as int, id, target);
                        assert(self.actors@ =~= old(self).actors@.update(
                            i as int,
                            (Actor {
                                grapple: (GrappleFlow::Unresolved { hook_entity: hook_id }),
                                ..actor_of(old(self).actors@, id)
                            }),
                        ).push(Self::hook_actor(hook_id, id, target)));
                    }
                    Some(hook_id)
                } else {
                    None
                }
            },
            None => None,
        }
    }

    /// The freshly spawned projectile actor: ballistic (no gravity),
    /// moving at `direction * speed`, carrying its damage, knockback and
    /// initial exclusion list.
    pub open spec fn projectile_actor(id: u64, position: Vec2, direction: Vec2, speed: i64,
        damage: u64, knockback: i64, exclude: Vec<u64>) -> Actor {
        Actor {
            id,
            pos: position,
            vel: Self::dash_velocity(direction, speed),
            gravity_scale: 0,
            can_dash: false,
            can_grapple: false,
            is_enemy: false,
            hittable: false,
            health: None,
            defense: None,
            dash: None,
            grapple: GrappleFlow::Idle,
            hook: None,
            projectile: Some(
                Projectile { damage, knockback, exclusion: exclude, terminal: false },
            ),
        }
    }

    /// Spawns a projectile with zero gravity influence, velocity
    /// `direction * speed`, and the given exclusion list (typically the
    /// firer, to prevent instant self-damage at the muzzle). Returns the
    /// projectile's id.
    pub fn spawn_projectile(&mut self, position: Vec2, direction: Vec2, speed: i64, damage: u64,
        knockback: i64, exclude: Vec<u64>) -> (id: u64)
        requires
            old(self).wf(),
            position.bounded(POS_LIMIT),
            direction.bounded(DIR_SCALE),
            0 <= speed <= SPEED_LIMIT,
            0 <= knockback <= TUNING_LIMIT,
            old(self).next_id < u64::MAX,
        ensures
            final(self).wf(),
            id == old(self).next_id,
            final(self).next_id == old(self).next_id + 1,
            final(self).actors@ == old(self).actors@.push(
                Self::projectile_actor(id, position, direction, speed, damage, knockback, exclude),
            ),
            final(self).touching@ == old(self).touching@,
            final(self).notifications@ == old(self).notifications@,
            final(self).commands@ == old(self).commands@,
            final(self).config == old(self).config,
    {
        let id = self.next_id;
        proof {
            crate::math::lemma_tdiv_scale_bound(direction.x as int, speed as int, DIR_SCALE as int);
            crate::math::lemma_tdiv_scale_bound(direction.y as int, speed as int, DIR_SCALE as int);
        }
        let v = crate::math::scale_toward(direction, speed, DIR_SCALE);
        let actor = Actor {
            id,
            pos: position,
            vel: v,
            gravity_scale: 0,
            can_dash: false,
            can_grapple: false,
            is_enemy: false,
            hittable: false,
            health: None,
            defense: None,
            dash: None,
            grapple: GrappleFlow::Idle,
            hook: None,
            projectile: Some(
                Projectile { damage, knockback, exclusion: exclude, terminal: false },
            ),
        };
        self.actors.push(actor);
        self.next_id = self.next_id + 1;
        proof {
            let s = self.actors@;
            let olds = old(self).actors@;
            assert(s[s.len() - 1] == Self::projectile_actor(
                id,
                position,
                direction,
                speed,
                damage,
                knockback,
                exclude,
            ));
            assert forall|a: int, b: int|
                #![trigger s[a].id, s[b].id]
                0 <= a < b < s.len() implies s[a].id != s[b].id by {
                if b < olds.len() {
                    assert(s[a] == olds[a] && s[b] == olds[b]);
                } else {
                    assert(s[b].id == old(self).next_id);
                    assert(s[a] == olds[a]);
                }
            }
            assert forall|p: u64| #[trigger] hit_count(self.notifications@, p) <= 1 by {
                assert(hit_count(old(self).notifications@, p) <= 1);
            }
            assert forall|i: int|
                0 <= i < s.len() implies ((#[trigger] s[i]).projectile matches Some(pr)
                && !pr.terminal ==> hit_count(self.notifications@, s[i].id) == 0) by {
                if i < olds.len() {
                    assert(s[i] == olds[i]);
                } else {
                    assert(s[i].id == id);
                    lemma_hits_below_fresh(self.notifications@, old(self).next_id, id);
                }
            }
            assert forall|i: int|
                0 <= i < s.len() implies ((#[trigger] s[i]).hook matches Some(h) ==> h.shooter
                < self.next_id) by {
                if i < olds.len() {
                    assert(s[i] == olds[i]);
                } else {
                    assert(s[i].hook is None);
                }
            }
            assert forall|a: int, b: int|
                #![trigger s[a].hook, s[b].hook]
                0 <= a < b < s.len() && s[a].hook is Some && s[b].hook is Some implies s[a]
                .hook->Some_0.shooter != s[b].hook->Some_0.shooter by {
                assert(s[b].hook == if b < olds.len() { olds[b].hook } else { None });
                assert(s[a] == olds[a]);
            }
            assert forall|a: int, b: int|
                #![trigger s[a].hook, s[b].id]
                0 <= a < s.len() && 0 <= b < s.len() && s[a].hook is Some && s[b].id == s[a]
                .hook->Some_0.shooter implies flow_hook_id(s[b].grapple) == Some(s[a].id) by {
                assert(s[a].hook == if a < olds.len() { olds[a].hook } else { None });
                assert(olds[a].hook matches Some(h) ==> h.shooter < old(self).next_id);
                if b < olds.len() {
                    assert(s[b] == olds[b]);
                } else {
                    assert(s[b].id == old(self).next_id);
                }
            }
        }
        id
    }

    /// The one-shot yank a pull-release applies: an impulse on the
    /// pulled enemy of the configured magnitude, directed from the enemy
    /// toward the shooter's position at release time. Nothing is emitted
    /// when the enemy's body no longer exists, or when the two positions
    /// coincide and no direction exists.
    pub open spec fn pull_release_commands(s: Seq<Actor>, cfg: GrapplingHookConfig,
        shooter_pos: Vec2, pull: PullingEnemy) -> Seq<PhysicsCommand> {
        if has_actor(s, pull.enemy) && crate::math::dist_s(actor_of(s, pull.enemy).pos,
            shooter_pos) != 0 {
            seq![
                (PhysicsCommand::ApplyImpulse {
                    actor: pull.enemy,
                    impulse: crate::grapple::toward(
                        actor_of(s, pull.enemy).pos,
                        shooter_pos,
                        cfg.pull_impulse as int,
                    ),
                }),
            ]
        } else {
            Seq::empty()
        }
    }

    /// The actors after a grapple end: the shooter's flow is reset and
    /// the hook actor, when still live, is removed from the mirror.
    pub open spec fn grapple_ended_actors(s: Seq<Actor>, id: u64, hook_id: u64) -> Seq<Actor> {
        let mid = s.update(
            idx_of(s, id),
            (Actor { grapple: GrappleFlow::Idle, ..actor_of(s, id) }),
        );
        if has_actor(s, hook_id) {
            mid.remove(idx_of(s, hook_id))
        } else {
            mid
        }
    }

    /// Ends a grapple. A pull applies the one-shot yank to the pulled
    /// enemy (skipped, with a log upstream, when its body vanished); a
    /// swing is released as a clean drop with no impulse. Either way the
    /// shooter leaves the grapple flow and the hook is despawned. With
    /// neither a swing nor a pull in place the call is a no-op.
    pub fn end_grapple(&mut self, id: u64)
        requires
            old(self).wf(),
        ensures
            final(self).wf(),
            has_actor(old(self).actors@, id) ==> (actor_of(old(self).actors@, id).grapple matches
                GrappleFlow::Pulling(p) ==> final(self).actors@ == Self::grapple_ended_actors(
                old(self).actors@,
                id,
                p.hook_entity,
            ) && final(self).commands@ == old(self).commands@ + Self::pull_release_commands(
                old(self).actors@,
                old(self).config,
                actor_of(old(self).actors@, id).pos,
                p,
            ) + seq![(PhysicsCommand::Despawn { actor: p.hook_entity })]),
            has_actor(old(self).actors@, id) ==> (actor_of(old(self).actors@, id).grapple matches
                GrappleFlow::Swinging(sw) ==> final(self).actors@ == Self::grapple_ended_actors(
                old(self).actors@,
                id,
                sw.hook_entity,
            ) && final(self).commands@ == old(self).commands@ + seq![
                (PhysicsCommand::Despawn { actor: sw.hook_entity }),
            ]),
            !(has_actor(old(self).actors@, id) && (actor_of(old(self).actors@, id).grapple is
                Pulling || actor_of(old(self).actors@, id).grapple is Swinging)) ==> *final(self)
                == *old(self),
            final(self).touching@ == old(self).touching@,
            final(self).notifications@ == old(self).notifications@,
            final(self).config == old(self).config,
            final(self).next_id == old(self).next_id,
    {
        match self.find_actor(id) {
            Some(i) => {
                proof {
                    lemma_actor_at(self.actors@, i as int);
                }
                let flow = self.actors[i].grapple;
                match flow {
                    GrappleFlow::Pulling(p) => {
                        let spos = self.actors[i].pos;
                        self.actors[i].grapple = GrappleFlow::Idle;
                        proof {
                            assert forall|j: int|
                                0 <= j < self.actors@.len() implies (#[trigger] self.actors@[j]).id
                                == old(self).actors@[j].id && self.actors@[j].pos == old(
                                self,
                            ).actors@[j].pos by {
                                if j != i as int {
                                    assert(self.actors@[j] == old(self).actors@[j]);
                                }
                            }
                        }
                        match self.find_actor(p.enemy) {
                            Some(ej) => {
                                proof {
                                    assert(old(self).actors@[ej as int].id == p.enemy);
                                    lemma_actor_at(old(self).actors@, ej as int);
                                }
                                let epos = self.actors[ej].pos;
                                let d = crate::math::dist(epos, spos);
                                if d != 0 {
                                    proof {
                                        crate::math::lemma_dist_dominates_components(
                                            epos,
                                            spos,
                                            d as int,
                                        );
                                    }
                                    let imp = crate::math::scale_toward(
                                        Vec2 { x: spos.x - epos.x, y: spos.y - epos.y },
                                        self.config.pull_impulse,
                                        d,
                                    );
                                    self.commands.push(
                                        PhysicsCommand::ApplyImpulse {
                                            actor: p.enemy,
                                            impulse: imp,
                                        },
                                    );
                                }
                            },
                            None => {
                                proof {
                                    lemma_same_ids_has_actor(
                                        old(self).actors@,
                                        self.actors@,
                                        p.enemy,
                                    );
                                }
                            },
                        }
                        self.commands.push(PhysicsCommand::Despawn { actor: p.hook_entity });
                        let hook_found = self.find_actor(p.hook_entity);
                        match hook_found {
                            Some(hj) => {
                                proof {
                                    assert(old(self).actors@[hj as int].id == p.hook_entity);
                                    lemma_actor_at(old(self).actors@, hj as int);
                                }
                                self.actors.remove(hj);
                            },
                            None => {
                                proof {
                                    lemma_same_ids_has_actor(
                                        old(self).actors@,
                                        self.actors@,
                                        p.hook_entity,
                                    );
                                }
                            },
                        }
                        proof {
                            lemma_actor_at(old(self).actors@, i as int);
                            assert(self.actors@ =~= Self::grapple_ended_actors(
                                old(self).actors@,
                                id,
                                p.hook_entity,
                            ));
                            assert(self.commands@ =~= old(self).commands@
                                + Self::pull_release_commands(
                                old(self).actors@,
                                old(self).config,
                                actor_of(old(self).actors@, id).pos,
                                p,
                            ) + seq![(PhysicsCommand::Despawn { actor: p.hook_entity })]);
                            lemma_end_grapple_wf(*old(self), *self, i as int, p.hook_entity);
                        }
                    },
                    GrappleFlow::Swinging(sw) => {
                        self.actors[i].grapple = GrappleFlow::Idle;
                        proof {
                            assert forall|j: int|
                                0 <= j < self.actors@.len() implies (#[trigger] self.actors@[j]).id
                                == old(self).actors@[j].id by {
                                if j != i as int {
                                    assert(self.actors@[j] == old(self).actors@[j]);
                                }
                            }
                        }
                        self.commands.push(PhysicsCommand::Despawn { actor: sw.hook_entity });
                        let hook_found = self.find_actor(sw.hook_entity);
                        match hook_found {
                            Some(hj) => {
                                proof {
                                    assert(old(self).actors@[hj as int].id == sw.hook_entity);
                                    lemma_actor_at(old(self).actors@, hj as int);
                                }
                                self.actors.remove(hj);
                            },
                            None => {
                                proof {
                                    lemma_same_ids_has_actor(
                                        old(self).actors@,
                                        self.actors@,
                                        sw.hook_entity,
                                    );
                                }
                            },
                        }
                        proof {
                            lemma_actor_at(old(self).actors@, i as int);
                            assert(self.actors@ =~= Self::grapple_ended_actors(
                                old(self).actors@,
                                id,
                                sw.hook_entity,
                            ));
                            assert(self.commands@ =~= old(self).commands@ + seq![
                                (PhysicsCommand::Despawn { actor: sw.hook_entity }),
                            ]);
                            lemma_end_grapple_wf(*old(self), *self, i as int, sw.hook_entity);
                        }
                    },
                    _ => {},
                }
            },
            None => {},
        }
    }

    /// `y` is `x` with at most the projectile record changed.
    pub open spec fn same_but_projectile(x: Actor, y: Actor) -> bool {
        y == (Actor { projectile: y.projectile, ..x })
    }

    /// `p1` is `p0` with every exclusion entry for `other` dropped.
    pub open spec fn projectile_excl_removed(p0: Option<Projectile>, p1: Option<Projectile>,
        other: u64) -> bool {
        match p0 {
            Some(q0) => p1 matches Some(q1) && q1.damage == q0.damage && q1.knockback
                == q0.knockback && q1.terminal == q0.terminal && q1.exclusion@ == remove_id_s(
                q0.exclusion@,
                other,
            ),
            None => p1 is None,
        }
    }

    /// The touch relation with every copy of the pair `{a, b}` dropped,
    /// from pair `k` on.
    pub open spec fn remove_pair_from(t: Seq<(u64, u64)>, a: u64, b: u64, k: int)
        -> Seq<(u64, u64)>
        decreases t.len() - k,
    {
        if k < 0 || k >= t.len() {
            Seq::empty()
        } else if (t[k].0 == a && t[k].1 == b) || (t[k].0 == b && t[k].1 == a) {
            Self::remove_pair_from(t, a, b, k + 1)
        } else {
            seq![t[k]] + Self::remove_pair_from(t, a, b, k + 1)
        }
    }

    /// The touch relation with every copy of the pair `{a, b}` dropped.
    pub open spec fn remove_pair_s(t: Seq<(u64, u64)>, a: u64, b: u64) -> Seq<(u64, u64)> {
        Self::remove_pair_from(t, a, b, 0)
    }

    /// Handles an end-of-touch notification: the pair leaves the touch
    /// relation, and — the symmetric exclusion cleanup — each of the two
    /// actors that is a live projectile drops the other from its
    /// exclusion list.
    pub fn on_touch_end(&mut self, a: u64, b: u64)
        requires
            old(self).wf(),
            a != b,
        ensures
            final(self).wf(),
            final(self).touching@ == Self::remove_pair_s(old(self).touching@, a, b),
            final(self).actors@.len() == old(self).actors@.len(),
            forall|j: int|
                0 <= j < old(self).actors@.len() ==> Self::same_but_projectile(
                    old(self).actors@[j],
                    #[trigger] final(self).actors@[j],
                ),
            forall|j: int|
                0 <= j < old(self).actors@.len() && (#[trigger] old(self).actors@[j]).id == a
                    ==> Self::projectile_excl_removed(
                    old(self).actors@[j].projectile,
                    final(self).actors@[j].projectile,
                    b,
                ),
            forall|j: int|
                0 <= j < old(self).actors@.len() && (#[trigger] old(self).actors@[j]).id == b
                    ==> Self::projectile_excl_removed(
                    old(self).actors@[j].projectile,
                    final(self).actors@[j].projectile,
                    a,
                ),
            forall|j: int|
                0 <= j < old(self).actors@.len() && (#[trigger] old(self).actors@[j]).id != a
                    && old(self).actors@[j].id != b ==> final(self).actors@[j] == old(
                    self,
                ).actors@[j],
            final(self).notifications@ == old(self).notifications@,
            final(self).commands@ == old(self).commands@,
            final(self).config == old(self).config,
            final(self).next_id == old(self).next_id,
    {
        let mut kept: Vec<(u64, u64)> = Vec::new();
        let mut k: usize = 0;
        while k < self.touching.len()
            invariant
                0 <= k <= self.touching@.len(),
                Self::remove_pair_from(self.touching@, a, b, 0) == kept@
                    + Self::remove_pair_from(self.touching@, a, b, k as int),
            decreases self.touching@.len() - k,
        {
            let pair = self.touching[k];
            if !((pair.0 == a && pair.1 == b) || (pair.0 == b && pair.1 == a)) {
                kept.push(pair);
                proof {
                    assert(kept@ + Self::remove_pair_from(self.touching@, a, b, k + 1)
                        =~= kept@.drop_last() + (seq![self.touching@[k as int]]
                        + Self::remove_pair_from(self.touching@, a, b, k + 1)));
                }
            }
            k = k + 1;
        }
        proof {
            assert(kept@ + Self::remove_pair_from(self.touching@, a, b, self.touching@.len() as int)
                =~= kept@);
        }
        self.touching = kept;
        proof {
            lemma_remove_pair_irreflexive(old(self).touching@, a, b, 0);
            lemma_remove_pair_bounded(old(self).touching@, a, b, 0, self.next_id);
        }
        self.drop_exclusion_entry(a, b);
        self.drop_exclusion_entry(b, a);
    }

    /// Drops `other` from the exclusion list of actor `id`, when `id` is
    /// a live projectile.
    fn drop_exclusion_entry(&mut self, id: u64, other: u64)
        requires
            old(self).wf(),
        ensures
            final(self).wf(),
            final(self).actors@.len() == old(self).actors@.len(),
            forall|j: int|
                0 <= j < old(self).actors@.len() ==> Self::same_but_projectile(
                    old(self).actors@[j],
                    #[trigger] final(self).actors@[j],
                ),
            forall|j: int|
                0 <= j < old(self).actors@.len() && (#[trigger] old(self).actors@[j]).id == id
                    ==> Self::projectile_excl_removed(
                    old(self).actors@[j].projectile,
                    final(self).actors@[j].projectile,
                    other,
                ),
            forall|j: int|
                0 <= j < old(self).actors@.len() && (#[trigger] old(self).actors@[j]).id != id
                    ==> final(self).actors@[j] == old(self).actors@[j],
            final(self).touching@ == old(self).touching@,
            final(self).notifications@ == old(self).notifications@,
            final(self).commands@ == old(self).commands@,
            final(self).config == old(self).config,
            final(self).next_id == old(self).next_id,
    {
        match self.find_actor(id) {
            Some(i) => {
                proof {
                    lemma_actor_at(self.actors@, i as int);
                }
                let updated: Option<Projectile> = match &self.actors[i].projectile {
                    Some(pr) => {
                        let ne = remove_id(&pr.exclusion, other);
                        Some(
                            Projectile {
                                damage: pr.damage,
                                knockback: pr.knockback,
                                exclusion: ne,
                                terminal: pr.terminal,
                            },
                        )
                    },
                    None => None,
                };
                self.actors[i].projectile = updated;
                proof {
                    lemma_wf_after_update(*old(self), *self, i as int);
                    assert forall|j: int|
                        0 <= j < old(self).actors@.len() implies Self::same_but_projectile(
                        old(self).actors@[j],
                        #[trigger] self.actors@[j],
                    ) by {
                        if j != i as int {
                            assert(self.actors@[j] == old(self).actors@[j]);
                        }
                    }
                    assert forall|j: int|
                        0 <= j < old(self).actors@.len() && (#[trigger] old(self).actors@[j]).id
                        == id implies Self::projectile_excl_removed(
                        old(self).actors@[j].projectile,
                        self.actors@[j].projectile,
                        other,
                    ) by {
                        if j != i as int {
                            assert(old(self).actors@[j].id != old(self).actors@[i as int].id);
                        }
                    }
                }
            },
            None => {},
        }
    }

    /// A touch of projectile `p` against actor `t` produces a hit: both
    /// are live, the projectile has not already hit, the target is
    /// hit-eligible, and the target is not excluded.
    pub open spec fn hit_happens(s: Seq<Actor>, p: u64, t: u64) -> bool {
        &&& has_actor(s, p)
        &&& has_actor(s, t)
        &&& actor_of(s, p).projectile matches Some(pr) && crate::projectile::hit_allowed(
            pr.terminal,
            pr.exclusion@,
            actor_of(s, t).hittable,
            t,
        )
    }

    /// The knockback impulse of a hit: the projectile's velocity
    /// normalized, scaled by the knockback magnitude (zero when the
    /// projectile is at rest and no direction exists).
    pub open spec fn knockback_vec(vel: Vec2, knockback: i64) -> Vec2 {
        crate::grapple::toward(Vec2 { x: 0, y: 0 }, vel, knockback as int)
    }

    /// The target after a hit: damage is subtracted from its health,
    /// clamped at zero; an actor without health takes the knockback only.
    pub open spec fn damaged_actor(x: Actor, damage: u64) -> Actor {
        Actor {
            health: match x.health {
                Some(h) => Some(
                    Health(crate::projectile::spec_apply_damage(h.0 as int, damage as int) as u64),
                ),
                None => None,
            },
            ..x
        }
    }

    /// The hit notification a resolved hit raises.
    pub open spec fn hit_notification(p: u64, t: u64, damage: u64, kb: Vec2) -> Notification {
        Notification::ProjectileHit { projectile: p, target: t, damage, knockback_impulse: kb }
    }

    /// The physics writes a resolved hit emits: wake the target, apply
    /// the knockback, despawn the projectile.
    pub open spec fn hit_commands(t: u64, kb: Vec2, p: u64) -> Seq<PhysicsCommand> {
        seq![
            PhysicsCommand::Wake { actor: t },
            PhysicsCommand::ApplyImpulse { actor: t, impulse: kb },
            PhysicsCommand::Despawn { actor: p },
        ]
    }

    /// The actors after projectile `p` hit `t`: the target damaged, the
    /// projectile removed.
    pub open spec fn hit_actors(s: Seq<Actor>, p: u64, t: u64) -> Seq<Actor> {
        s.update(
            idx_of(s, t),
            Self::damaged_actor(actor_of(s, t), actor_of(s, p).projectile->Some_0.damage),
        ).remove(idx_of(s, p))
    }

    /// Resolves a confirmed hit of projectile `p` against `t`: raises
    /// the single hit notification, damages the target, emits the
    /// knockback and despawn writes, and removes the projectile — so no
    /// later touch in the same batch can hit with it again.
    fn apply_hit(&mut self, p: u64, t: u64)
        requires
            old(self).wf(),
            Self::hit_happens(old(self).actors@, p, t),
            p != t,
        ensures
            final(self).wf(),
            final(self).actors@ == Self::hit_actors(old(self).actors@, p, t),
            final(self).notifications@ == old(self).notifications@.push(
                Self::hit_notification(
                    p,
                    t,
                    actor_of(old(self).actors@, p).projectile->Some_0.damage,
                    Self::knockback_vec(
                        actor_of(old(self).actors@, p).vel,
                        actor_of(old(self).actors@, p).projectile->Some_0.knockback,
                    ),
                ),
            ),
            final(self).commands@ == old(self).commands@ + Self::hit_commands(
                t,
                Self::knockback_vec(
                    actor_of(old(self).actors@, p).vel,
                    actor_of(old(self).actors@, p).projectile->Some_0.knockback,
                ),
                p,
            ),
            final(self).touching@ == old(self).touching@,
            final(self).config == old(self).config,
            final(self).next_id == old(self).next_id,
    {
        let pi: usize = match self.find_actor(p) {
            Some(i) => i,
            None => {
                proof {
                    assert(false);
                }
                0
            },
        };
        let ti: usize = match self.find_actor(t) {
            Some(i) => i,
            None => {
                proof {
                    assert(false);
                }
                0
            },
        };
        proof {
            lemma_actor_at(self.actors@, pi as int);
            lemma_actor_at(self.actors@, ti as int);
        }
        let (dmg, kb): (u64, i64) = match &self.actors[pi].projectile {
            Some(pr) => (pr.damage, pr.knockback),
            None => {
                proof {
                    assert(false);
                }
                (0, 0)
            },
        };
        let vel = self.actors[pi].vel;
        let d = crate::math::dist(Vec2 { x: 0, y: 0 }, vel);
        let imp: Vec2 = if d != 0 {
            proof {
                crate::math::lemma_dist_dominates_components(Vec2 { x: 0, y: 0 }, vel, d as int);
            }
            crate::math::scale_toward(vel, kb, d)
        } else {
            Vec2 { x: 0, y: 0 }
        };
        self.notifications.push(
            Notification::ProjectileHit {
                projectile: p,
                target: t,
                damage: dmg,
                knockback_impulse: imp,
            },
        );
        match self.actors[ti].health {
            Some(h) => {
                let nv = crate::projectile::apply_damage(h.0, dmg);
                self.actors[ti].health = Some(Health(nv));
            },
            None => {},
        }
        self.commands.push(PhysicsCommand::Wake { actor: t });
        self.commands.push(PhysicsCommand::ApplyImpulse { actor: t, impulse: imp });
        self.commands.push(PhysicsCommand::Despawn { actor: p });
        self.actors.remove(pi);
        proof {
            assert(imp == Self::knockback_vec(
                actor_of(old(self).actors@, p).vel,
                actor_of(old(self).actors@, p).projectile->Some_0.knockback,
            ));
            assert(self.actors@ =~= Self::hit_actors(old(self).actors@, p, t));
            assert(self.commands@ =~= old(self).commands@ + Self::hit_commands(t, imp, p));
            assert(self.notifications@.drop_last() =~= old(self).notifications@);
            lemma_apply_hit_wf(*old(self), *self, pi as int, ti as int);
        }
    }

    /// The touch relation with the pair `{a, b}` recorded: idempotent,
    /// and a pair naming a body the core does not know (a dangling
    /// reference) is ignored rather than recorded.
    pub open spec fn touch_recorded(s: Seq<Actor>, t: Seq<(u64, u64)>, a: u64, b: u64)
        -> Seq<(u64, u64)> {
        if has_actor(s, a) && has_actor(s, b) && !touches(t, a, b) {
            t.push((a, b))
        } else {
            t
        }
    }

    /// Handles a start-of-touch notification between `a` and `b`: the
    /// pair enters the touch relation, and a hit is resolved when one of
    /// the two is a projectile for which the other is an unexcluded
    /// hit-eligible target. At most one hit is resolved per touch — a
    /// resolved hit removes the projectile, so the opposite direction
    /// can no longer fire.
    pub fn on_touch_start(&mut self, a: u64, b: u64)
        requires
            old(self).wf(),
            a != b,
        ensures
            final(self).wf(),
            final(self).touching@ == Self::touch_recorded(
                old(self).actors@,
                old(self).touching@,
                a,
                b,
            ),
            Self::hit_happens(old(self).actors@, a, b) ==> final(self).actors@
                == Self::hit_actors(old(self).actors@, a, b) && final(self).notifications@ == old(
                self,
            ).notifications@.push(
                Self::hit_notification(
                    a,
                    b,
                    actor_of(old(self).actors@, a).projectile->Some_0.damage,
                    Self::knockback_vec(
                        actor_of(old(self).actors@, a).vel,
                        actor_of(old(self).actors@, a).projectile->Some_0.knockback,
                    ),
                ),
            ) && final(self).commands@ == old(self).commands@ + Self::hit_commands(
                b,
                Self::knockback_vec(
                    actor_of(old(self).actors@, a).vel,
                    actor_of(old(self).actors@, a).projectile->Some_0.knockback,
                ),
                a,
            ),
            !Self::hit_happens(old(self).actors@, a, b) && Self::hit_happens(
                old(self).actors@,
                b,
                a,
            ) ==> final(self).actors@ == Self::hit_actors(old(self).actors@, b, a) && final(self).notifications@ == old(self).notifications@.push(
                Self::hit_notification(
                    b,
                    a,
                    actor_of(old(self).actors@, b).projectile->Some_0.damage,
                    Self::knockback_vec(
                        actor_of(old(self).actors@, b).vel,
                        actor_of(old(self).actors@, b).projectile->Some_0.knockback,
                    ),
                ),
            ) && final(self).commands@ == old(self).commands@ + Self::hit_commands(
                a,
                Self::knockback_vec(
                    actor_of(old(self).actors@, b).vel,
                    actor_of(old(self).actors@, b).projectile->Some_0.knockback,
                ),
                b,
            ),
            !Self::hit_happens(old(self).actors@, a, b) && !Self::hit_happens(
                old(self).actors@,
                b,
                a,
            ) ==> final(self).actors@ == old(self).actors@ && final(self).notifications@ == old(
                self,
            ).notifications@ && final(self).commands@ == old(self).commands@,
            final(self).config == old(self).config,
            final(self).next_id == old(self).next_id,
    {
        let a_live = self.find_actor(a);
        let b_live = self.find_actor(b);
        match (a_live, b_live) {
            (Some(ai), Some(bi)) => {
                let already = self.is_touching(a, b);
                if !already {
                    proof {
                        lemma_actor_at(self.actors@, ai as int);
                        lemma_actor_at(self.actors@, bi as int);
                    }
                    self.touching.push((a, b));
                }
            },
            _ => {},
        }
        if self.hit_check(a, b) {
            self.apply_hit(a, b);
        } else if self.hit_check(b, a) {
            self.apply_hit(b, a);
        }
    }

    /// Whether `a` and `b` currently touch.
    pub fn is_touching(&self, a: u64, b: u64) -> (r: bool)
        ensures
            r == touches(self.touching@, a, b),
    {
        let mut k: usize = 0;
        while k < self.touching.len()
            invariant
                0 <= k <= self.touching@.len(),
                forall|x: int|
                    0 <= x < k ==> !(((#[trigger] self.touching@[x]).0 == a
                        && self.touching@[x].1 == b) || (self.touching@[x].0 == b
                        && self.touching@[x].1 == a)),
            decreases self.touching@.len() - k,
        {
            let pair = self.touching[k];
            if (pair.0 == a && pair.1 == b) || (pair.0 == b && pair.1 == a) {
                return true;
            }
            k = k + 1;
        }
        false
    }

    /// Whether a touch of projectile `p` against `t` produces a hit.
    fn hit_check(&self, p: u64, t: u64) -> (r: bool)
        requires
            self.wf(),
        ensures
            r == Self::hit_happens(self.actors@, p, t),
    {
        match self.find_actor(p) {
            Some(pi) => {
                proof {
                    lemma_actor_at(self.actors@, pi as int);
                }
                match self.find_actor(t) {
                    Some(ti) => {
                        proof {
                            lemma_actor_at(self.actors@, ti as int);
                        }
                        if !self.actors[ti].hittable {
                            return false;
                        }
                        match &self.actors[pi].projectile {
                            Some(pr) => !pr.terminal && !crate::projectile::vec_contains(
                                &pr.exclusion,
                                t,
                            ),
                            None => false,
                        }
                    },
                    None => false,
                }
            },
            None => false,
        }
    }

    /// `p1` is `p0` with its exclusion list intersected with the
    /// current contacts.
    pub open spec fn projectile_excl_decayed(p0: Option<Projectile>, p1: Option<Projectile>,
        contacts: Seq<u64>) -> bool {
        match p0 {
            Some(q0) => p1 matches Some(q1) && q1.damage == q0.damage && q1.knockback
                == q0.knockback && q1.terminal == q0.terminal && q1.exclusion@
                == retain_contacts_s(q0.exclusion@, contacts),
            None => p1 is None,
        }
    }

    /// The per-tick exclusion decay: every projectile's exclusion list
    /// is intersected with its current touch-set, so an entry protects
    /// its actor only until the two physically separate.
    pub fn exclusion_decay(&mut self)
        requires
            old(self).wf(),
        ensures
            final(self).wf(),
            final(self).actors@.len() == old(self).actors@.len(),
            forall|j: int|
                0 <= j < old(self).actors@.len() ==> Self::same_but_projectile(
                    old(self).actors@[j],
                    #[trigger] final(self).actors@[j],
                ),
            forall|j: int|
                0 <= j < old(self).actors@.len() ==> Self::projectile_excl_decayed(
                    (#[trigger] old(self).actors@[j]).projectile,
                    final(self).actors@[j].projectile,
                    contacts_of(old(self).touching@, old(self).actors@[j].id, None),
                ),
            final(self).touching@ == old(self).touching@,
            final(self).notifications@ == old(self).notifications@,
            final(self).commands@ == old(self).commands@,
            final(self).config == old(self).config,
            final(self).next_id == old(self).next_id,
    {
        let mut i: usize = 0;
        while i < self.actors.len()
            invariant
                old(self).wf(),
                self.wf(),
                0 <= i <= self.actors@.len(),
                self.actors@.len() == old(self).actors@.len(),
                forall|j: int|
                    0 <= j < i ==> Self::same_but_projectile(
                        old(self).actors@[j],
                        #[trigger] self.actors@[j],
                    ),
                forall|j: int|
                    0 <= j < i ==> Self::projectile_excl_decayed(
                        (#[trigger] old(self).actors@[j]).projectile,
                        self.actors@[j].projectile,
                        contacts_of(old(self).touching@, old(self).actors@[j].id, None),
                    ),
                forall|j: int|
                    i <= j < self.actors@.len() ==> #[trigger] self.actors@[j] == old(
                        self,
                    ).actors@[j],
                self.touching@ == old(self).touching@,
                self.notifications@ == old(self).notifications@,
                self.commands@ == old(self).commands@,
                self.config == old(self).config,
                self.next_id == old(self).next_id,
            decreases self.actors@.len() - i,
        {
            let ghost pre = *self;
            let id = self.actors[i].id;
            let contacts = contacts_collect(&self.touching, id, None);
            let updated: Option<Projectile> = match &self.actors[i].projectile {
                Some(pr) => {
                    let ne = retain_contacts(&pr.exclusion, &contacts);
                    Some(
                        Projectile {
                            damage: pr.damage,
                            knockback: pr.knockback,
                            exclusion: ne,
                            terminal: pr.terminal,
                        },
                    )
                },
                None => None,
            };
            self.actors[i].projectile = updated;
            proof {
                lemma_wf_after_update(pre, *self, i as int);
                assert forall|j: int|
                    0 <= j < i + 1 implies Self::same_but_projectile(
                    old(self).actors@[j],
                    #[trigger] self.actors@[j],
                ) by {
                    if j < i as int {
                        assert(self.actors@[j] == pre.actors@[j]);
                    }
                }
                assert forall|j: int|
                    0 <= j < i + 1 implies Self::projectile_excl_decayed(
                    (#[trigger] old(self).actors@[j]).projectile,
                    self.actors@[j].projectile,
                    contacts_of(old(self).touching@, old(self).actors@[j].id, None),
                ) by {
                    if j < i as int {
                        assert(self.actors@[j] == pre.actors@[j]);
                    }
                }
            }
            i = i + 1;
        }
    }

    /// One dash-controller step for the actor at index `i`: its dash
    /// record, if any, is stepped — ending the dash zeroes the velocity,
    /// restores gravity, removes the record and emits the two writes.
    pub open spec fn dash_phase_step(s: Seq<Actor>, t: Seq<(u64, u64)>, now: u64, i: int)
        -> (Seq<Actor>, Seq<PhysicsCommand>) {
        match s[i].dash {
            Some(d0) => match dash_step(d0, now, touches_any(t, s[i].id)) {
                DashOutcome::StillDashing(d1) => (
                    s.update(i, (Actor { dash: Some(d1), ..s[i] })),
                    Seq::empty(),
                ),
                DashOutcome::Ended => (
                    s.update(i, Self::dash_ended_actor(s[i])),
                    Self::dash_end_commands(s[i].id),
                ),
            },
            None => (s, Seq::empty()),
        }
    }

    /// The dash controller applied to the first `k` actors in order.
    pub open spec fn dash_phase_upto(s: Seq<Actor>, t: Seq<(u64, u64)>, now: u64, k: int)
        -> (Seq<Actor>, Seq<PhysicsCommand>)
        decreases k,
    {
        if k <= 0 {
            (s, Seq::empty())
        } else {
            let prev = Self::dash_phase_upto(s, t, now, k - 1);
            let st = Self::dash_phase_step(prev.0, t, now, k - 1);
            (st.0, prev.1 + st.1)
        }
    }

    /// The per-tick dash duties, for every actor with a dash record:
    /// end the dash once its duration has elapsed; spend the grace frame
    /// on the record's first tick; after it, end the dash on any contact.
    pub fn dash_system(&mut self, now_ms: u64)
        requires
            old(self).wf(),
        ensures
            final(self).wf(),
            final(self).actors@ == Self::dash_phase_upto(
                old(self).actors@,
                old(self).touching@,
                now_ms,
                old(self).actors@.len() as int,
            ).0,
            final(self).commands@ == old(self).commands@ + Self::dash_phase_upto(
                old(self).actors@,
                old(self).touching@,
                now_ms,
                old(self).actors@.len() as int,
            ).1,
            final(self).actors@.len() == old(self).actors@.len(),
            final(self).touching@ == old(self).touching@,
            final(self).notifications@ == old(self).notifications@,
            final(self).config == old(self).config,
            final(self).next_id == old(self).next_id,
    {
        let mut i: usize = 0;
        while i < self.actors.len()
            invariant
                old(self).wf(),
                self.wf(),
                0 <= i <= self.actors@.len(),
                self.actors@.len() == old(self).actors@.len(),
                self.actors@ == Self::dash_phase_upto(
                    old(self).actors@,
                    old(self).touching@,
                    now_ms,
                    i as int,
                ).0,
                self.commands@ == old(self).commands@ + Self::dash_phase_upto(
                    old(self).actors@,
                    old(self).touching@,
                    now_ms,
                    i as int,
                ).1,
                self.touching@ == old(self).touching@,
                self.notifications@ == old(self).notifications@,
                self.config == old(self).config,
                self.next_id == old(self).next_id,
            decreases self.actors@.len() - i,
        {
            let ghost pre = *self;
            let dash0 = self.actors[i].dash;
            match dash0 {
                Some(d0) => {
                    let id = self.actors[i].id;
                    let touching_now = touches_any_exec(&self.touching, id);
                    let outcome = dash_step_exec(&d0, now_ms, touching_now);
                    match outcome {
                        DashOutcome::StillDashing(d1) => {
                            self.actors[i].dash = Some(d1);
                        },
                        DashOutcome::Ended => {
                            self.actors[i].vel = Vec2 { x: 0, y: 0 };
                            self.actors[i].gravity_scale = 1;
                            self.actors[i].dash = None;
                            self.commands.push(
                                PhysicsCommand::SetVelocity {
                                    actor: id,
                                    velocity: Vec2 { x: 0, y: 0 },
                                },
                            );
                            self.commands.push(
                                PhysicsCommand::SetGravityScale { actor: id, scale: 1 },
                            );
                        },
                    }
                    proof {
                        let st = Self::dash_phase_step(
                            pre.actors@,
                            old(self).touching@,
                            now_ms,
                            i as int,
                        );
                        assert(self.actors@ =~= st.0);
                        assert(self.commands@ =~= old(self).commands@
                            + Self::dash_phase_upto(
                            old(self).actors@,
                            old(self).touching@,
                            now_ms,
                            i + 1,
                        ).1);
                        lemma_wf_after_update(pre, *self, i as int);
                    }
                },
                None => {
                    proof {
                        assert(Self::dash_phase_step(
                            pre.actors@,
                            old(self).touching@,
                            now_ms,
                            i as int,
                        ).0 =~= pre.actors@);
                        assert(self.commands@ =~= old(self).commands@
                            + Self::dash_phase_upto(
                            old(self).actors@,
                            old(self).touching@,
                            now_ms,
                            i + 1,
                        ).1);
                    }
                },
            }
            i = i + 1;
        }
    }

    /// One swing step for the actor at index `i`: a swinging shooter
    /// receives the spring and damping impulses along the rope axis and
    /// its previous-distance memory is refreshed.
    pub open spec fn swing_phase_step(s: Seq<Actor>, cfg: GrapplingHookConfig, dt_ms: u64,
        i: int) -> (Seq<Actor>, Seq<PhysicsCommand>) {
        match s[i].grapple {
            GrappleFlow::Swinging(sw) => (
                s.update(
                    i,
                    (Actor { grapple: GrappleFlow::Swinging(swing_updated(s[i].pos, sw)), ..s[i] }),
                ),
                seq![
                    (PhysicsCommand::ApplyImpulse {
                        actor: s[i].id,
                        impulse: swing_spring_impulse(s[i].pos, sw, cfg, dt_ms as int),
                    }),
                    (PhysicsCommand::ApplyImpulse {
                        actor: s[i].id,
                        impulse: swing_damp_impulse(s[i].pos, sw, cfg, dt_ms as int),
                    }),
                ],
            ),
            _ => (s, Seq::empty()),
        }
    }

    /// The swing physics applied to the first `k` actors in order.
    pub open spec fn swing_phase_upto(s: Seq<Actor>, cfg: GrapplingHookConfig, dt_ms: u64,
        k: int) -> (Seq<Actor>, Seq<PhysicsCommand>)
        decreases k,
    {
        if k <= 0 {
            (s, Seq::empty())
        } else {
            let prev = Self::swing_phase_upto(s, cfg, dt_ms, k - 1);
            let st = Self::swing_phase_step(prev.0, cfg, dt_ms, k - 1);
            (st.0, prev.1 + st.1)
        }
    }

    /// The per-tick swing physics, for every swinging shooter: a
    /// Hooke's-law impulse toward the anchor proportional to how far the
    /// rope is stretched past its rest length, and a damping impulse
    /// proportional to the change in anchor distance since the previous
    /// tick (skipped on the first tick, when no previous distance
    /// exists). The previous distance is refreshed afterwards.
    pub fn swing_system(&mut self, dt_ms: u64)
        requires
            old(self).wf(),
            dt_ms <= DT_LIMIT,
        ensures
            final(self).wf(),
            final(self).actors@ == Self::swing_phase_upto(
                old(self).actors@,
                old(self).config,
                dt_ms,
                old(self).actors@.len() as int,
            ).0,
            final(self).commands@ == old(self).commands@ + Self::swing_phase_upto(
                old(self).actors@,
                old(self).config,
                dt_ms,
                old(self).actors@.len() as int,
            ).1,
            final(self).actors@.len() == old(self).actors@.len(),
            final(self).touching@ == old(self).touching@,
            final(self).notifications@ == old(self).notifications@,
            final(self).config == old(self).config,
            final(self).next_id == old(self).next_id,
    {
        let mut i: usize = 0;
        while i < self.actors.len()
            invariant
                old(self).wf(),
                self.wf(),
                0 <= i <= self.actors@.len(),
                self.actors@.len() == old(self).actors@.len(),
                self.actors@ == Self::swing_phase_upto(
                    old(self).actors@,
                    old(self).config,
                    dt_ms,
                    i as int,
                ).0,
                self.commands@ == old(self).commands@ + Self::swing_phase_upto(
                    old(self).actors@,
                    old(self).config,
                    dt_ms,
                    i as int,
                ).1,
                self.touching@ == old(self).touching@,
                self.notifications@ == old(self).notifications@,
                self.config == old(self).config,
                self.next_id == old(self).next_id,
                dt_ms <= DT_LIMIT,
            decreases self.actors@.len() - i,
        {
            let ghost pre = *self;
            let flow = self.actors[i].grapple;
            match flow {
                GrappleFlow::Swinging(sw) => {
                    let id = self.actors[i].id;
                    let pos = self.actors[i].pos;
                    let (spring, damp, updated) = swing_tick(pos, &sw, &self.config, dt_ms);
                    self.actors[i].grapple = GrappleFlow::Swinging(updated);
                    self.commands.push(
                        PhysicsCommand::ApplyImpulse { actor: id, impulse: spring },
                    );
                    self.commands.push(PhysicsCommand::ApplyImpulse { actor: id, impulse: damp });
                    proof {
                        let st = Self::swing_phase_step(pre.actors@, old(self).config, dt_ms,
                            i as int);
                        assert(self.actors@ =~= st.0);
                        assert(self.commands@ =~= old(self).commands@
                            + Self::swing_phase_upto(
                            old(self).actors@,
                            old(self).config,
                            dt_ms,
                            i + 1,
                        ).1);
                        lemma_wf_after_swing_update(pre, *self, i as int);
                    }
                },
                _ => {
                    proof {
                        assert(Self::swing_phase_step(
                            pre.actors@,
                            old(self).config,
                            dt_ms,
                            i as int,
                        ).0 =~= pre.actors@);
                        assert(self.commands@ =~= old(self).commands@
                            + Self::swing_phase_upto(
                            old(self).actors@,
                            old(self).config,
                            dt_ms,
                            i + 1,
                        ).1);
                    }
                },
            }
            i = i + 1;
        }
    }

    /// One hook-follows-enemy step for the actor at index `i`: an
    /// enemy-attached hook is teleported onto its target's position.
    pub open spec fn follow_phase_step(s: Seq<Actor>, i: int)
        -> (Seq<Actor>, Seq<PhysicsCommand>) {
        if s[i].hook matches Some(h) && h.attached_to matches HookAttachment::AttachedEnemy(e)
            && has_actor(s, e) {
            let e_id = s[i].hook->Some_0.attached_to->AttachedEnemy_0;
            (
                s.update(i, (Actor { pos: actor_of(s, e_id).pos, ..s[i] })),
                seq![
                    (PhysicsCommand::SetPosition {
                        actor: s[i].id,
                        position: actor_of(s, e_id).pos,
                    }),
                ],
            )
        } else {
            (s, Seq::empty())
        }
    }

    /// Hook-follows-enemy applied to the first `k` actors in order.
    pub open spec fn follow_phase_upto(s: Seq<Actor>, k: int)
        -> (Seq<Actor>, Seq<PhysicsCommand>)
        decreases k,
    {
        if k <= 0 {
            (s, Seq::empty())
        } else {
            let prev = Self::follow_phase_upto(s, k - 1);
            let st = Self::follow_phase_step(prev.0, k - 1);
            (st.0, prev.1 + st.1)
        }
    }

    /// The per-tick hook-follows-enemy positioning: every enemy-attached
    /// hook rides its target — its mirrored position is forced onto the
    /// enemy's and a teleport write is emitted. A hook whose target's
    /// body vanished is skipped (logged upstream, no state change).
    pub fn follow_enemy(&mut self)
        requires
            old(self).wf(),
        ensures
            final(self).wf(),
            final(self).actors@ == Self::follow_phase_upto(
                old(self).actors@,
                old(self).actors@.len() as int,
            ).0,
            final(self).commands@ == old(self).commands@ + Self::follow_phase_upto(
                old(self).actors@,
                old(self).actors@.len() as int,
            ).1,
            final(self).actors@.len() == old(self).actors@.len(),
            final(self).touching@ == old(self).touching@,
            final(self).notifications@ == old(self).notifications@,
            final(self).config == old(self).config,
            final(self).next_id == old(self).next_id,
    {
        let mut i: usize = 0;
        while i < self.actors.len()
            invariant
                old(self).wf(),
                self.wf(),
                0 <= i <= self.actors@.len(),
                self.actors@.len() == old(self).actors@.len(),
                self.actors@ == Self::follow_phase_upto(old(self).actors@, i as int).0,
                self.commands@ == old(self).commands@ + Self::follow_phase_upto(
                    old(self).actors@,
                    i as int,
                ).1,
                self.touching@ == old(self).touching@,
                self.notifications@ == old(self).notifications@,
                self.config == old(self).config,
                self.next_id == old(self).next_id,
            decreases self.actors@.len() - i,
        {
            let ghost pre = *self;
            let hook0 = self.actors[i].hook;
            match hook0 {
                Some(h) => {
                    match h.attached_to {
                        HookAttachment::AttachedEnemy(e) => {
                            let id = self.actors[i].id;
                            match self.find_actor(e) {
                                Some(ej) => {
                                    proof {
                                        lemma_actor_at(self.actors@, ej as int);
                                    }
                                    let epos = self.actors[ej].pos;
                                    self.actors[i].pos = epos;
                                    self.commands.push(
                                        PhysicsCommand::SetPosition {
                                            actor: id,
                                            position: epos,
                                        },
                                    );
                                    proof {
                                        let st = Self::follow_phase_step(pre.actors@, i as int);
                                        assert(self.actors@ =~= st.0);
                                        assert(self.commands@ =~= old(self).commands@
                                            + Self::follow_phase_upto(
                                            old(self).actors@,
                                            i + 1,
                                        ).1);
                                        lemma_wf_after_update(pre, *self, i as int);
                                    }
                                },
                                None => {
                                    proof {
                                        assert(Self::follow_phase_step(pre.actors@, i as int).0
                                            =~= pre.actors@);
                                        assert(self.commands@ =~= old(self).commands@
                                            + Self::follow_phase_upto(
                                            old(self).actors@,
                                            i + 1,
                                        ).1);
                                    }
                                },
                            }
                        },
                        _ => {
                            proof {
                                assert(Self::follow_phase_step(pre.actors@, i as int).0
                                    =~= pre.actors@);
                                assert(self.commands@ =~= old(self).commands@
                                    + Self::follow_phase_upto(old(self).actors@, i + 1).1);
                            }
                        },
                    }
                },
                None => {
                    proof {
                        assert(Self::follow_phase_step(pre.actors@, i as int).0 =~= pre.actors@);
                        assert(self.commands@ =~= old(self).commands@
                            + Self::follow_phase_upto(old(self).actors@, i + 1).1);
                    }
                },
            }
            i = i + 1;
        }
    }

    /// The ids of all live hostile actors.
    pub open spec fn enemy_ids(s: Seq<Actor>) -> Set<u64> {
        Set::new(|e: u64| has_actor(s, e) && actor_of(s, e).is_enemy)
    }

    /// What the unattached hook at index `i` resolves to this tick,
    /// from its contacts (shooter excluded, insertion order) and the
    /// live hostiles.
    pub open spec fn attach_resolution(s: Seq<Actor>, t: Seq<(u64, u64)>, i: int)
        -> HookAttachment {
        pick_attachment(
            contacts_of(t, s[i].id, Some(s[i].hook->Some_0.shooter)),
            Self::enemy_ids(s),
        )
    }

    /// The flow the shooter at index `sj` enters when the hook at index
    /// `i` resolves to `pick`: a swing anchored at the hook's position
    /// for a world attachment, a pull of the struck enemy otherwise; the
    /// rope length is the shooter-to-hook distance at this instant.
    pub open spec fn resolved_flow(s: Seq<Actor>, i: int, sj: int, pick: HookAttachment)
        -> GrappleFlow {
        match pick {
            HookAttachment::AttachedWorld => GrappleFlow::Swinging(
                Swinging {
                    hook_entity: s[i].id,
                    anchor: s[i].pos,
                    rope_rest_length: crate::math::dist_s(s[sj].pos, s[i].pos) as i64,
                    previous_distance_from_hook: None,
                },
            ),
            HookAttachment::AttachedEnemy(e) => GrappleFlow::Pulling(
                PullingEnemy {
                    hook_entity: s[i].id,
                    enemy: e,
                    rope_length: crate::math::dist_s(s[sj].pos, s[i].pos) as i64,
                },
            ),
            HookAttachment::Unattached => s[sj].grapple,
        }
    }

    /// One attachment-resolution step for the actor at index `i`: an
    /// unattached hook with at least one contact attaches — to the first
    /// hostile contact if any, else to the world — raising exactly one
    /// notification; a live shooter then receives its swing or pull
    /// record, and a vanished shooter silently drops the attachment.
    pub open spec fn attach_phase_step(s: Seq<Actor>, t: Seq<(u64, u64)>, i: int)
        -> (Seq<Actor>, Seq<Notification>) {
        match s[i].hook {
            Some(h) => {
                if h.attached_to is Unattached {
                    let pick = Self::attach_resolution(s, t, i);
                    if pick is Unattached {
                        (s, Seq::empty())
                    } else {
                        let s1 = s.update(
                            i,
                            (Actor {
                                hook: Some(
                                    GrapplingHook { shooter: h.shooter, attached_to: pick },
                                ),
                                ..s[i]
                            }),
                        );
                        let ns = seq![
                            (Notification::GrappleAttached {
                                shooter: h.shooter,
                                attachment: pick,
                            }),
                        ];
                        if has_actor(s, h.shooter) {
                            let sj = idx_of(s, h.shooter);
                            (
                                s1.update(
                                    sj,
                                    (Actor {
                                        grapple: Self::resolved_flow(s, i, sj, pick),
                                        ..s1[sj]
                                    }),
                                ),
                                ns,
                            )
                        } else {
                            (s1, ns)
                        }
                    }
                } else {
                    (s, Seq::empty())
                }
            },
            None => (s, Seq::empty()),
        }
    }

    /// Attachment resolution applied to the first `k` actors in order.
    pub open spec fn attach_phase_upto(s: Seq<Actor>, t: Seq<(u64, u64)>, k: int)
        -> (Seq<Actor>, Seq<Notification>)
        decreases k,
    {
        if k <= 0 {
            (s, Seq::empty())
        } else {
            let prev = Self::attach_phase_upto(s, t, k - 1);
            let st = Self::attach_phase_step(prev.0, t, k - 1);
            (st.0, prev.1 + st.1)
        }
    }

    /// Whether `e` is a live hostile actor.
    fn is_enemy_id(&self, e: u64) -> (r: bool)
        requires
            self.wf(),
        ensures
            r == Self::enemy_ids(self.actors@).contains(e),
    {
        match self.find_actor(e) {
            Some(i) => {
                proof {
                    lemma_actor_at(self.actors@, i as int);
                }
                self.actors[i].is_enemy
            },
            None => false,
        }
    }

    /// The first contact that is a live hostile, if any.
    fn first_enemy_of(&self, contacts: &Vec<u64>) -> (r: Option<u64>)
        requires
            self.wf(),
        ensures
            match r {
                Some(e) => has_enemy_contact(contacts@, Self::enemy_ids(self.actors@)) && e
                    == first_enemy_contact(contacts@, Self::enemy_ids(self.actors@)),
                None => !has_enemy_contact(contacts@, Self::enemy_ids(self.actors@)),
            },
    {
        let mut c: usize = 0;
        while c < contacts.len()
            invariant
                self.wf(),
                0 <= c <= contacts@.len(),
                forall|x: int|
                    0 <= x < c ==> !Self::enemy_ids(self.actors@).contains(
                        #[trigger] contacts@[x],
                    ),
            decreases contacts@.len() - c,
        {
            if self.is_enemy_id(contacts[c]) {
                proof {
                    lemma_enemy_scan(contacts@, Self::enemy_ids(self.actors@), c as int);
                }
                return Some(contacts[c]);
            }
            c = c + 1;
        }
        proof {
            lemma_enemy_scan(contacts@, Self::enemy_ids(self.actors@), contacts@.len() as int);
        }
        None
    }

    /// The per-tick hook attachment resolution, for every unattached
    /// hook, in spawn order. Attachment is irreversible: an attached
    /// hook is never looked at again.
    pub fn attach_hooks(&mut self)
        requires
            old(self).wf(),
        ensures
            final(self).wf(),
            final(self).actors@ == Self::attach_phase_upto(
                old(self).actors@,
                old(self).touching@,
                old(self).actors@.len() as int,
            ).0,
            final(self).notifications@ == old(self).notifications@ + Self::attach_phase_upto(
                old(self).actors@,
                old(self).touching@,
                old(self).actors@.len() as int,
            ).1,
            final(self).actors@.len() == old(self).actors@.len(),
            final(self).touching@ == old(self).touching@,
            final(self).commands@ == old(self).commands@,
            final(self).config == old(self).config,
            final(self).next_id == old(self).next_id,
    {
        let mut i: usize = 0;
        while i < self.actors.len()
            invariant
                old(self).wf(),
                self.wf(),
                0 <= i <= self.actors@.len(),
                self.actors@.len() == old(self).actors@.len(),
                self.actors@ == Self::attach_phase_upto(
                    old(self).actors@,
                    old(self).touching@,
                    i as int,
                ).0,
                self.notifications@ == old(self).notifications@ + Self::attach_phase_upto(
                    old(self).actors@,
                    old(self).touching@,
                    i as int,
                ).1,
                self.touching@ == old(self).touching@,
                self.commands@ == old(self).commands@,
                self.config == old(self).config,
                self.next_id == old(self).next_id,
            decreases self.actors@.len() - i,
        {
            let ghost pre = *self;
            let hook0 = self.actors[i].hook;
            let mut resolved = false;
            match hook0 {
                Some(h) => {
                    match h.attached_to {
                        HookAttachment::Unattached => {
                            let hook_id = self.actors[i].id;
                            let hpos = self.actors[i].pos;
                            let contacts = contacts_collect(
                                &self.touching,
                                hook_id,
                                Some(h.shooter),
                            );
                            let fe = self.first_enemy_of(&contacts);
                            let pick: HookAttachment = match fe {
                                Some(e) => HookAttachment::AttachedEnemy(e),
                                None => {
                                    if contacts.len() > 0 {
                                        HookAttachment::AttachedWorld
                                    } else {
                                        HookAttachment::Unattached
                                    }
                                },
                            };
                            proof {
                                assert(pick == Self::attach_resolution(
                                    pre.actors@,
                                    old(self).touching@,
                                    i as int,
                                ));
                            }
                            match pick {
                                HookAttachment::Unattached => {},
                                _ => {
                                    resolved = true;
                                    self.actors[i].hook = Some(
                                        GrapplingHook { shooter: h.shooter, attached_to: pick },
                                    );
                                    self.notifications.push(
                                        Notification::GrappleAttached {
                                            shooter: h.shooter,
                                            attachment: pick,
                                        },
                                    );
                                    match self.find_actor(h.shooter) {
                                        Some(sj) => {
                                            proof {
                                                assert(pre.actors@[sj as int].id == h.shooter);
                                                lemma_actor_at(pre.actors@, sj as int);
                                            }
                                            let spos = self.actors[sj].pos;
                                            let rope = crate::math::dist(spos, hpos);
                                            let flow: GrappleFlow = match pick {
                                                HookAttachment::AttachedWorld => GrappleFlow::Swinging(
                                                    Swinging {
                                                        hook_entity: hook_id,
                                                        anchor: hpos,
                                                        rope_rest_length: rope,
                                                        previous_distance_from_hook: None,
                                                    },
                                                ),
                                                HookAttachment::AttachedEnemy(e) => GrappleFlow::Pulling(
                                                    PullingEnemy {
                                                        hook_entity: hook_id,
                                                        enemy: e,
                                                        rope_length: rope,
                                                    },
                                                ),
                                                HookAttachment::Unattached => GrappleFlow::Idle,
                                            };
                                            self.actors[sj].grapple = flow;
                                            proof {
                                                let st = Self::attach_phase_step(
                                                    pre.actors@,
                                                    old(self).touching@,
                                                    i as int,
                                                );
                                                assert(self.actors@ =~= st.0);
                                                assert(self.notifications@ =~= old(
                                                    self,
                                                ).notifications@ + Self::attach_phase_upto(
                                                    old(self).actors@,
                                                    old(self).touching@,
                                                    i + 1,
                                                ).1);
                                            }
                                        },
                                        None => {
                                            proof {
                                                lemma_same_ids_has_actor(
                                                    pre.actors@,
                                                    self.actors@,
                                                    h.shooter,
                                                );
                                                let st = Self::attach_phase_step(
                                                    pre.actors@,
                                                    old(self).touching@,
                                                    i as int,
                                                );
                                                assert(self.actors@ =~= st.0);
                                                assert(self.notifications@ =~= old(
                                                    self,
                                                ).notifications@ + Self::attach_phase_upto(
                                                    old(self).actors@,
                                                    old(self).touching@,
                                                    i + 1,
                                                ).1);
                                            }
                                        },
                                    }
                                    proof {
                                        assert(self.notifications@ =~= pre.notifications@
                                            + Self::attach_phase_step(
                                            pre.actors@,
                                            old(self).touching@,
                                            i as int,
                                        ).1);
                                        lemma_attach_step_wf(pre, *self, i as int);
                                    }
                                },
                            }
                        },
                        _ => {},
                    }
                },
                None => {},
            }
            proof {
                if !resolved {
                    assert(Self::attach_phase_step(
                        pre.actors@,
                        old(self).touching@,
                        i as int,
                    ).0 =~= pre.actors@);
                    assert(self.notifications@ =~= old(self).notifications@
                        + Self::attach_phase_upto(
                        old(self).actors@,
                        old(self).touching@,
                        i + 1,
                    ).1);
                }
            }
            i = i + 1;
        }
    }

    /// The per-tick exclusion decay as a two-state relation over actor
    /// sequences: identical but for the projectile records, whose
    /// exclusion lists are intersected with the current contacts. (The
    /// result is pinned by its contents; a relation is used because a
    /// sequence of actors holding fresh lists cannot be built in
    /// specification code.)
    pub open spec fn decay_rel(s0: Seq<Actor>, t: Seq<(u64, u64)>, s1: Seq<Actor>) -> bool {
        &&& s1.len() == s0.len()
        &&& forall|j: int|
            0 <= j < s0.len() ==> Self::same_but_projectile(s0[j], #[trigger] s1[j])
        &&& forall|j: int|
            0 <= j < s0.len() ==> Self::projectile_excl_decayed(
                (#[trigger] s0[j]).projectile,
                s1[j].projectile,
                contacts_of(t, s0[j].id, None),
            )
    }

    /// One whole tick as a two-state relation: the composition, in the
    /// required order, of the five phase transitions — attachment
    /// resolution, the dash controller, the swing spring and damper,
    /// the exclusion decay, and hook-follows-enemy — over the actors,
    /// the raised notifications and the emitted physics writes.
    pub open spec fn tick_rel(w0: World, w1: World, now_ms: u64, dt_ms: u64) -> bool {
        let n = w0.actors@.len() as int;
        let at = Self::attach_phase_upto(w0.actors@, w0.touching@, n);
        let da = Self::dash_phase_upto(at.0, w0.touching@, now_ms, n);
        let sw = Self::swing_phase_upto(da.0, w0.config, dt_ms, n);
        &&& w1.touching@ == w0.touching@
        &&& w1.config == w0.config
        &&& w1.next_id == w0.next_id
        &&& w1.notifications@ == w0.notifications@ + at.1
        &&& exists|decayed: Seq<Actor>|
            {
                &&& #[trigger] Self::decay_rel(sw.0, w0.touching@, decayed)
                &&& w1.actors@ == Self::follow_phase_upto(decayed, n).0
                &&& w1.commands@ == w0.commands@ + da.1 + sw.1 + Self::follow_phase_upto(
                    decayed,
                    n,
                ).1
            }
    }

    /// One whole physics tick of continuous duties, in the required
    /// order: hook attachment resolution first (it must see the touch
    /// state of the just-completed physics step), then the dash
    /// controller, the swing spring and damper, the exclusion decay, and
    /// the hook-follows-enemy positioning. Touch transitions and intent
    /// events must have been fed in before the call.
    ///
    /// `tick_rel` pins the whole transition as the composition of the
    /// five phases; the summary clauses below restate the load-bearing
    /// facts.
    pub fn fixed_tick(&mut self, now_ms: u64, dt_ms: u64)
        requires
            old(self).wf(),
            dt_ms <= DT_LIMIT,
        ensures
            final(self).wf(),
            Self::tick_rel(*old(self), *final(self), now_ms, dt_ms),
            final(self).touching@ == old(self).touching@,
            final(self).config == old(self).config,
            final(self).next_id == old(self).next_id,
            final(self).actors@.len() == old(self).actors@.len(),
            // identity, tags and health are tick-invariant: only
            // touch-start hits damage health
            forall|j: int|
                0 <= j < old(self).actors@.len() ==> {
                    let r = #[trigger] final(self).actors@[j];
                    let a = old(self).actors@[j];
                    r.id == a.id && r.can_dash == a.can_dash && r.can_grapple == a.can_grapple
                        && r.is_enemy == a.is_enemy && r.hittable == a.hittable && r.health
                        == a.health && r.defense == a.defense
                },
            // hook attachment is terminal: an attached hook rides
            // through any number of ticks unchanged
            forall|j: int|
                0 <= j < old(self).actors@.len() && (#[trigger] old(self).actors@[j].hook) is Some
                    && !(old(self).actors@[j].hook->Some_0.attached_to is Unattached) ==> final(self).actors@[j].hook == old(self).actors@[j].hook,
            // the dash controller's verdict, per actor: timeout or
            // post-grace contact ends the dash and zeroes the velocity
            forall|j: int|
                0 <= j < old(self).actors@.len() ==> ((#[trigger] old(self).actors@[j].dash)
                    matches Some(d0) ==> (match dash_step(
                    d0,
                    now_ms,
                    touches_any(old(self).touching@, old(self).actors@[j].id),
                ) {
                    DashOutcome::StillDashing(d1) => final(self).actors@[j].dash == Some(d1),
                    DashOutcome::Ended => final(self).actors@[j].dash is None && final(self).actors@[j].vel == (Vec2 { x: 0, y: 0 }),
                })),
            // a tick raises attachment notifications only, never a hit
            old(self).notifications@.len() <= final(self).notifications@.len(),
            forall|x: int|
                0 <= x < old(self).notifications@.len() ==> #[trigger] final(self).notifications@[x] == old(self).notifications@[x],
            forall|x: int|
                old(self).notifications@.len() <= x < final(self).notifications@.len()
                    ==> (#[trigger] final(self).notifications@[x]) matches
                    Notification::GrappleAttached { .. },
            old(self).commands@.len() <= final(self).commands@.len(),
            forall|x: int|
                0 <= x < old(self).commands@.len() ==> #[trigger] final(self).commands@[x] == old(
                    self,
                ).commands@[x],
    {
        let ghost w0 = *self;
        self.attach_hooks();
        let ghost w1 = *self;
        self.dash_system(now_ms);
        let ghost w2 = *self;
        self.swing_system(dt_ms);
        let ghost w3 = *self;
        self.exclusion_decay();
        let ghost w4 = *self;
        self.follow_enemy();
        proof {
            let n = w0.actors@.len() as int;
            lemma_attach_upto_frame(w0.actors@, w0.touching@, n);
            lemma_dash_upto_pointwise(w1.actors@, w1.touching@, now_ms, n);
            lemma_swing_upto_frame(w2.actors@, w2.config, dt_ms, n);
            lemma_follow_upto_frame(w4.actors@, n);
            lemma_attach_upto_notifs(w0.actors@, w0.touching@, n);
            let at = Self::attach_phase_upto(w0.actors@, w0.touching@, n);
            let da = Self::dash_phase_upto(at.0, w0.touching@, now_ms, n);
            let sw = Self::swing_phase_upto(da.0, w0.config, dt_ms, n);
            assert(w1.actors@ == at.0);
            assert(w2.actors@ == da.0);
            assert(w3.actors@ == sw.0);
            assert(Self::decay_rel(sw.0, w0.touching@, w4.actors@)) by {
                assert forall|j: int|
                    0 <= j < sw.0.len() implies Self::same_but_projectile(
                    sw.0[j],
                    #[trigger] w4.actors@[j],
                ) by {
                    assert(Self::same_but_projectile(w3.actors@[j], w4.actors@[j]));
                }
                assert forall|j: int|
                    0 <= j < sw.0.len() implies Self::projectile_excl_decayed(
                    (#[trigger] sw.0[j]).projectile,
                    w4.actors@[j].projectile,
                    contacts_of(w0.touching@, sw.0[j].id, None),
                ) by {
                    assert(Self::projectile_excl_decayed(
                        w3.actors@[j].projectile,
                        w4.actors@[j].projectile,
                        contacts_of(w3.touching@, w3.actors@[j].id, None),
                    ));
                    assert(w3.touching@ == w0.touching@);
                }
            }
            assert(self.actors@ == Self::follow_phase_upto(w4.actors@, n).0) by {
                assert(w4.actors@.len() == n as nat);
            }
            assert(self.commands@ =~= w0.commands@ + da.1 + sw.1 + Self::follow_phase_upto(
                w4.actors@,
                n,
            ).1) by {
                assert(w1.commands@ == w0.commands@);
                assert(w2.commands@ == w1.commands@ + da.1);
                assert(w3.commands@ == w2.commands@ + sw.1);
                assert(w4.commands@ == w3.commands@);
                assert(self.commands@ == w4.commands@ + Self::follow_phase_upto(
                    w4.actors@,
                    n,
                ).1);
            }
            assert(self.notifications@ == w0.notifications@ + at.1);
            assert(Self::tick_rel(w0, *self, now_ms, dt_ms));
            assert forall|j: int|
                0 <= j < n implies ((#[trigger] w0.actors@[j].dash) matches Some(d0) ==> (match
            dash_step(d0, now_ms, touches_any(w0.touching@, w0.actors@[j].id)) {
                DashOutcome::StillDashing(d1) => self.actors@[j].dash == Some(d1),
                DashOutcome::Ended => self.actors@[j].dash is None && self.actors@[j].vel
                    == (Vec2 { x: 0, y: 0 }),
            })) by {
                if w0.actors@[j].dash is Some {
                    assert(w1.actors@[j].dash == w0.actors@[j].dash);
                    assert(w1.actors@[j].id == w0.actors@[j].id);
                    assert(w2.actors@[j] == World::dash_phase_step(
                        w1.actors@,
                        w1.touching@,
                        now_ms,
                        j,
                    ).0[j]);
                    assert(w3.actors@[j].dash == w2.actors@[j].dash && w3.actors@[j].vel
                        == w2.actors@[j].vel);
                    assert(World::same_but_projectile(w3.actors@[j], w4.actors@[j]));
                    assert(w4.actors@[j].dash == w3.actors@[j].dash && w4.actors@[j].vel
                        == w3.actors@[j].vel);
                    assert(self.actors@[j].dash == w4.actors@[j].dash && self.actors@[j].vel
                        == w4.actors@[j].vel);
                }
            }
            assert forall|j: int|
                0 <= j < n && (#[trigger] w0.actors@[j].hook) is Some && !(w0.actors@[j]
                .hook->Some_0.attached_to is Unattached) implies self.actors@[j].hook
                == w0.actors@[j].hook by {
                assert(w1.actors@[j].hook == w0.actors@[j].hook);
                assert(w2.actors@[j] == World::dash_phase_step(
                    w1.actors@,
                    w1.touching@,
                    now_ms,
                    j,
                ).0[j]);
                assert(w2.actors@[j].hook == w1.actors@[j].hook);
                assert(w3.actors@[j].hook == w2.actors@[j].hook);
                assert(World::same_but_projectile(w3.actors@[j], w4.actors@[j]));
                assert(w4.actors@[j].hook == w3.actors@[j].hook);
                assert(self.actors@[j].hook == w4.actors@[j].hook);
            }
            assert forall|j: int|
                0 <= j < n implies {
                let r = #[trigger] self.actors@[j];
                let a = w0.actors@[j];
                r.id == a.id && r.can_dash == a.can_dash && r.can_grapple == a.can_grapple
                    && r.is_enemy == a.is_enemy && r.hittable == a.hittable && r.health == a.health
                    && r.defense == a.defense
            } by {
                assert(w2.actors@[j] == World::dash_phase_step(
                    w1.actors@,
                    w1.touching@,
                    now_ms,
                    j,
                ).0[j]);
                assert(World::same_but_projectile(w3.actors@[j], w4.actors@[j]));
            }
        }
    }

    /// [`World::on_touch_start`]'s transition as a two-state relation.
    pub open spec fn touch_start_rel(w0: World, w1: World, a: u64, b: u64) -> bool {
        &&& w1.touching@ == Self::touch_recorded(w0.actors@, w0.touching@, a, b)
        &&& Self::hit_happens(w0.actors@, a, b) ==> w1.actors@ == Self::hit_actors(
            w0.actors@,
            a,
            b,
        ) && w1.notifications@ == w0.notifications@.push(
            Self::hit_notification(
                a,
                b,
                actor_of(w0.actors@, a).projectile->Some_0.damage,
                Self::knockback_vec(
                    actor_of(w0.actors@, a).vel,
                    actor_of(w0.actors@, a).projectile->Some_0.knockback,
                ),
            ),
        ) && w1.commands@ == w0.commands@ + Self::hit_commands(
            b,
            Self::knockback_vec(
                actor_of(w0.actors@, a).vel,
                actor_of(w0.actors@, a).projectile->Some_0.knockback,
            ),
            a,
        )
        &&& !Self::hit_happens(w0.actors@, a, b) && Self::hit_happens(w0.actors@, b, a)
            ==> w1.actors@ == Self::hit_actors(w0.actors@, b, a) && w1.notifications@
            == w0.notifications@.push(
            Self::hit_notification(
                b,
                a,
                actor_of(w0.actors@, b).projectile->Some_0.damage,
                Self::knockback_vec(
                    actor_of(w0.actors@, b).vel,
                    actor_of(w0.actors@, b).projectile->Some_0.knockback,
                ),
            ),
        ) && w1.commands@ == w0.commands@ + Self::hit_commands(
            a,
            Self::knockback_vec(
                actor_of(w0.actors@, b).vel,
                actor_of(w0.actors@, b).projectile->Some_0.knockback,
            ),
            b,
        )
        &&& !Self::hit_happens(w0.actors@, a, b) && !Self::hit_happens(w0.actors@, b, a)
            ==> w1.actors@ == w0.actors@ && w1.notifications@ == w0.notifications@ && w1.commands@
            == w0.commands@
        &&& w1.config == w0.config
        &&& w1.next_id == w0.next_id
    }

    /// [`World::on_touch_end`]'s transition as a two-state relation.
    pub open spec fn touch_end_rel(w0: World, w1: World, a: u64, b: u64) -> bool {
        &&& w1.touching@ == Self::remove_pair_s(w0.touching@, a, b)
        &&& w1.actors@.len() == w0.actors@.len()
        &&& forall|j: int|
            0 <= j < w0.actors@.len() ==> Self::same_but_projectile(
                w0.actors@[j],
                #[trigger] w1.actors@[j],
            )
        &&& forall|j: int|
            0 <= j < w0.actors@.len() && (#[trigger] w0.actors@[j]).id == a
                ==> Self::projectile_excl_removed(
                w0.actors@[j].projectile,
                w1.actors@[j].projectile,
                b,
            )
        &&& forall|j: int|
            0 <= j < w0.actors@.len() && (#[trigger] w0.actors@[j]).id == b
                ==> Self::projectile_excl_removed(
                w0.actors@[j].projectile,
                w1.actors@[j].projectile,
                a,
            )
        &&& forall|j: int|
            0 <= j < w0.actors@.len() && (#[trigger] w0.actors@[j]).id != a && w0.actors@[j].id
                != b ==> w1.actors@[j] == w0.actors@[j]
        &&& w1.notifications@ == w0.notifications@
        &&& w1.commands@ == w0.commands@
        &&& w1.config == w0.config
        &&& w1.next_id == w0.next_id
    }

    /// [`World::start_dash`]'s transition as a two-state relation.
    pub open spec fn start_dash_rel(w0: World, w1: World, id: u64, direction: Vec2, speed: i64,
        duration_ms: u64, now_ms: u64) -> bool {
        &&& Self::dash_accepted(w0.actors@, id) ==> w1.actors@ == w0.actors@.update(
            idx_of(w0.actors@, id),
            Self::dash_started_actor(
                actor_of(w0.actors@, id),
                direction,
                speed,
                duration_ms,
                now_ms,
            ),
        ) && w1.commands@ == w0.commands@ + Self::dash_start_commands(
            id,
            Self::dash_velocity(direction, speed),
        ) && w1.touching@ == w0.touching@ && w1.notifications@ == w0.notifications@ && w1.config
            == w0.config && w1.next_id == w0.next_id
        &&& !Self::dash_accepted(w0.actors@, id) ==> w1 == w0
    }

    /// [`World::start_grapple`]'s transition as a two-state relation.
    pub open spec fn start_grapple_rel(w0: World, w1: World, id: u64, target: Vec2) -> bool {
        &&& Self::grapple_accepted(w0.actors@, id) ==> w1.next_id == w0.next_id + 1
            && w1.actors@ == w0.actors@.update(
            idx_of(w0.actors@, id),
            (Actor {
                grapple: (GrappleFlow::Unresolved { hook_entity: w0.next_id }),
                ..actor_of(w0.actors@, id)
            }),
        ).push(Self::hook_actor(w0.next_id, id, target)) && w1.touching@ == w0.touching@
            && w1.notifications@ == w0.notifications@ && w1.commands@ == w0.commands@ && w1.config
            == w0.config
        &&& !Self::grapple_accepted(w0.actors@, id) ==> w1 == w0
    }

    /// [`World::end_grapple`]'s transition as a two-state relation.
    pub open spec fn end_grapple_rel(w0: World, w1: World, id: u64) -> bool {
        &&& has_actor(w0.actors@, id) ==> (actor_of(w0.actors@, id).grapple matches
            GrappleFlow::Pulling(p) ==> w1.actors@ == Self::grapple_ended_actors(
            w0.actors@,
            id,
            p.hook_entity,
        ) && w1.commands@ == w0.commands@ + Self::pull_release_commands(
            w0.actors@,
            w0.config,
            actor_of(w0.actors@, id).pos,
            p,
        ) + seq![(PhysicsCommand::Despawn { actor: p.hook_entity })])
        &&& has_actor(w0.actors@, id) ==> (actor_of(w0.actors@, id).grapple matches
            GrappleFlow::Swinging(sw) ==> w1.actors@ == Self::grapple_ended_actors(
            w0.actors@,
            id,
            sw.hook_entity,
        ) && w1.commands@ == w0.commands@ + seq![
            (PhysicsCommand::Despawn { actor: sw.hook_entity }),
        ])
        &&& !(has_actor(w0.actors@, id) && (actor_of(w0.actors@, id).grapple is Pulling
            || actor_of(w0.actors@, id).grapple is Swinging)) ==> w1 == w0
        &&& w1.touching@ == w0.touching@
        &&& w1.notifications@ == w0.notifications@
        &&& w1.config == w0.config
        &&& w1.next_id == w0.next_id
    }

    /// [`World::spawn_projectile`]'s transition as a two-state relation
    /// (the pushed actor is pinned field by field; its exclusion list by
    /// its contents).
    pub open spec fn spawn_projectile_rel(w0: World, w1: World, position: Vec2, direction: Vec2,
        speed: i64, damage: u64, knockback: i64, exclude: Seq<u64>) -> bool {
        &&& w1.next_id == w0.next_id + 1
        &&& w1.actors@.len() == w0.actors@.len() + 1
        &&& forall|j: int| 0 <= j < w0.actors@.len() ==> #[trigger] w1.actors@[j] == w0.actors@[j]
        &&& {
            let a = w1.actors@[w0.actors@.len() as int];
            &&& a.id == w0.next_id
            &&& a.pos == position
            &&& a.vel == Self::dash_velocity(direction, speed)
            &&& a.gravity_scale == 0
            &&& !a.can_dash
            &&& !a.can_grapple
            &&& !a.is_enemy
            &&& !a.hittable
            &&& a.health is None
            &&& a.defense is None
            &&& a.dash is None
            &&& a.grapple is Idle
            &&& a.hook is None
            &&& a.projectile matches Some(pr) && pr.damage == damage && pr.knockback == knockback
                && !pr.terminal && pr.exclusion@ == exclude
        }
        &&& w1.touching@ == w0.touching@
        &&& w1.notifications@ == w0.notifications@
        &&& w1.commands@ == w0.commands@
        &&& w1.config == w0.config
    }

    /// What one queued event does in one of the two passes: in the touch
    /// pass only touch transitions act; in the intent pass only intents
    /// do; every other event leaves the world untouched.
    pub open spec fn event_step_rel(w0: World, w1: World, e: InputEvent, now_ms: u64,
        touch_pass: bool) -> bool {
        match e {
            InputEvent::TouchStart { a, b } => if touch_pass {
                Self::touch_start_rel(w0, w1, a, b)
            } else {
                w1 == w0
            },
            InputEvent::TouchEnd { a, b } => if touch_pass {
                Self::touch_end_rel(w0, w1, a, b)
            } else {
                w1 == w0
            },
            InputEvent::StartDash { actor, direction, speed, duration_ms } => if touch_pass {
                w1 == w0
            } else {
                Self::start_dash_rel(w0, w1, actor, direction, speed, duration_ms, now_ms)
            },
            InputEvent::StartGrapple { actor, target } => if touch_pass {
                w1 == w0
            } else {
                Self::start_grapple_rel(w0, w1, actor, target)
            },
            InputEvent::EndGrapple { actor } => if touch_pass {
                w1 == w0
            } else {
                Self::end_grapple_rel(w0, w1, actor)
            },
            InputEvent::FireProjectile { position, direction, speed, damage, knockback, exclude } =>
                if touch_pass {
                w1 == w0
            } else {
                Self::spawn_projectile_rel(
                    w0,
                    w1,
                    position,
                    direction,
                    speed,
                    damage,
                    knockback,
                    exclude@,
                )
            },
        }
    }

    /// One whole pass over the queued events, oldest first, chaining the
    /// per-event transitions.
    pub open spec fn events_pass_rel(w0: World, w1: World, events: Seq<InputEvent>, now_ms: u64,
        touch_pass: bool) -> bool
        decreases events.len(),
    {
        if events.len() == 0 {
            w1 == w0
        } else {
            exists|mid: World|
                #[trigger] Self::event_step_rel(w0, mid, events[0], now_ms, touch_pass)
                    && Self::events_pass_rel(mid, w1, events.skip(1), now_ms, touch_pass)
        }
    }

    /// Drains one tick's worth of queued events in the required order —
    /// all touch transitions first, so attachment, dash and hit
    /// decisions see the touch state of the just-completed physics
    /// step; then the intent events; then the continuous per-tick
    /// duties. The queue is explicit, ordered and synchronous: a handler
    /// never triggers another notification that would be processed
    /// before the current batch finishes.
    ///
    /// The contract pins the whole call: a touch pass over the batch,
    /// an intent pass over the batch, then the tick composition.
    pub fn step(&mut self, now_ms: u64, dt_ms: u64, events: &Vec<InputEvent>)
        requires
            old(self).wf(),
            now_ms <= TIME_LIMIT,
            dt_ms <= DT_LIMIT,
            old(self).next_id + events@.len() <= u64::MAX,
            forall|i: int| 0 <= i < events@.len() ==> event_ok(#[trigger] events@[i]),
        ensures
            final(self).wf(),
            exists|mid1: World, mid2: World|
                Self::events_pass_rel(*old(self), mid1, events@, now_ms, true)
                    && #[trigger] Self::events_pass_rel(mid1, mid2, events@, now_ms, false)
                    && Self::tick_rel(mid2, *final(self), now_ms, dt_ms),
            final(self).config == old(self).config,
            old(self).next_id <= final(self).next_id,
            old(self).notifications@.len() <= final(self).notifications@.len(),
            forall|x: int|
                0 <= x < old(self).notifications@.len() ==> #[trigger] final(self).notifications@[x] == old(self).notifications@[x],
            old(self).commands@.len() <= final(self).commands@.len(),
            forall|x: int|
                0 <= x < old(self).commands@.len() ==> #[trigger] final(self).commands@[x] == old(
                    self,
                ).commands@[x],
    {
        proof {
            assert(events@.take(0) =~= Seq::<InputEvent>::empty());
        }
        let mut i: usize = 0;
        while i < events.len()
            invariant
                self.wf(),
                0 <= i <= events@.len(),
                self.config == old(self).config,
                self.next_id == old(self).next_id,
                old(self).next_id + events@.len() <= u64::MAX,
                forall|x: int| 0 <= x < events@.len() ==> event_ok(#[trigger] events@[x]),
                old(self).notifications@.len() <= self.notifications@.len(),
                forall|x: int|
                    0 <= x < old(self).notifications@.len() ==> #[trigger] self.notifications@[x]
                        == old(self).notifications@[x],
                old(self).commands@.len() <= self.commands@.len(),
                forall|x: int|
                    0 <= x < old(self).commands@.len() ==> #[trigger] self.commands@[x] == old(
                        self,
                    ).commands@[x],
                Self::events_pass_rel(*old(self), *self, events@.take(i as int), now_ms, true),
            decreases events@.len() - i,
        {
            let ghost pre = *self;
            match &events[i] {
                InputEvent::TouchStart { a, b } => {
                    self.on_touch_start(*a, *b);
                },
                InputEvent::TouchEnd { a, b } => {
                    self.on_touch_end(*a, *b);
                },
                _ => {},
            }
            proof {
                assert(Self::event_step_rel(pre, *self, events@[i as int], now_ms, true));
                lemma_events_pass_snoc(
                    *old(self),
                    pre,
                    *self,
                    events@.take(i as int),
                    events@[i as int],
                    now_ms,
                    true,
                );
                assert(events@.take(i + 1) =~= events@.take(i as int).push(events@[i as int]));
            }
            i = i + 1;
        }
        let ghost mid1 = *self;
        proof {
            assert(events@.take(events@.len() as int) =~= events@);
        }
        let mut i: usize = 0;
        while i < events.len()
            invariant
                self.wf(),
                0 <= i <= events@.len(),
                self.config == old(self).config,
                now_ms <= TIME_LIMIT,
                old(self).next_id <= self.next_id,
                self.next_id + events@.len() - i <= u64::MAX,
                forall|x: int| 0 <= x < events@.len() ==> event_ok(#[trigger] events@[x]),
                old(self).notifications@.len() <= self.notifications@.len(),
                forall|x: int|
                    0 <= x < old(self).notifications@.len() ==> #[trigger] self.notifications@[x]
                        == old(self).notifications@[x],
                old(self).commands@.len() <= self.commands@.len(),
                forall|x: int|
                    0 <= x < old(self).commands@.len() ==> #[trigger] self.commands@[x] == old(
                        self,
                    ).commands@[x],
                Self::events_pass_rel(mid1, *self, events@.take(i as int), now_ms, false),
            decreases events@.len() - i,
        {
            let ghost pre = *self;
            match &events[i] {
                InputEvent::StartDash { actor, direction, speed, duration_ms } => {
                    self.start_dash(*actor, *direction, *speed, *duration_ms, now_ms);
                },
                InputEvent::StartGrapple { actor, target } => {
                    let _hook = self.start_grapple(*actor, *target);
                },
                InputEvent::EndGrapple { actor } => {
                    self.end_grapple(*actor);
                },
                InputEvent::FireProjectile {
                    position,
                    direction,
                    speed,
                    damage,
                    knockback,
                    exclude,
                } => {
                    let excl = copy_ids(exclude);
                    let _id = self.spawn_projectile(
                        *position,
                        *direction,
                        *speed,
                        *damage,
                        *knockback,
                        excl,
                    );
                },
                _ => {},
            }
            proof {
                assert(Self::event_step_rel(pre, *self, events@[i as int], now_ms, false));
                lemma_events_pass_snoc(
                    mid1,
                    pre,
                    *self,
                    events@.take(i as int),
                    events@[i as int],
                    now_ms,
                    false,
                );
                assert(events@.take(i + 1) =~= events@.take(i as int).push(events@[i as int]));
            }
            i = i + 1;
        }
        let ghost mid2 = *self;
        proof {
            assert(events@.take(events@.len() as int) =~= events@);
        }
        self.fixed_tick(now_ms, dt_ms);
        proof {
            assert(Self::events_pass_rel(*old(self), mid1, events@, now_ms, true));
            assert(Self::events_pass_rel(mid1, mid2, events@, now_ms, false));
            assert(Self::tick_rel(mid2, *self, now_ms, dt_ms));
        }
    }
}

/// Updating one actor in place preserves the world invariant, as long as
/// the update keeps the actor's id, well-formedness, hook and grapple
/// records, and its projectile's terminal flag.
pub proof fn lemma_wf_after_update(w0: World, w1: World, i: int)
    requires
        w0.wf(),
        0 <= i < w0.actors@.len(),
        w1.actors@.len() == w0.actors@.len(),
        forall|j: int| 0 <= j < w0.actors@.len() && j != i ==> w1.actors@[j] == w0.actors@[j],
        w1.actors@[i].id == w0.actors@[i].id,
        w1.actors@[i].wf(),
        w1.actors@[i].hook == w0.actors@[i].hook,
        w1.actors@[i].grapple == w0.actors@[i].grapple,
        w1.actors@[i].projectile is Some <==> w0.actors@[i].projectile is Some,
        (w1.actors@[i].projectile matches Some(pr) ==> (w0.actors@[i].projectile matches Some(
            pr0,
        ) && pr.terminal == pr0.terminal)),
        w1.touching@ == w0.touching@,
        w1.notifications@ == w0.notifications@,
        w1.config == w0.config,
        w1.next_id == w0.next_id,
    ensures
        w1.wf(),
{
    let s0 = w0.actors@;
    let s1 = w1.actors@;
    assert forall|a: int, b: int|
        #![trigger s1[a].id, s1[b].id]
        0 <= a < b < s1.len() implies s1[a].id != s1[b].id by {
        assert(s0[a].id != s0[b].id);
        assert(s1[a].id == s0[a].id && s1[b].id == s0[b].id);
    }
    assert forall|a: int| 0 <= a < s1.len() implies (#[trigger] s1[a]).wf() by {
        if a != i {
            assert(s1[a] == s0[a]);
        }
    }
    assert forall|a: int| 0 <= a < s1.len() implies (#[trigger] s1[a]).id < w1.next_id by {
        assert(s1[a].id == s0[a].id);
    }
    assert forall|a: int|
        0 <= a < s1.len() implies ((#[trigger] s1[a]).projectile matches Some(pr) && !pr.terminal
        ==> hit_count(w1.notifications@, s1[a].id) == 0) by {
        if a != i {
            assert(s1[a] == s0[a]);
        }
    }
    assert forall|a: int|
        0 <= a < s1.len() implies ((#[trigger] s1[a]).hook matches Some(h) ==> h.shooter
        < w1.next_id) by {
        assert(s1[a].hook == s0[a].hook);
    }
    assert forall|a: int, b: int|
        #![trigger s1[a].hook, s1[b].hook]
        0 <= a < b < s1.len() && s1[a].hook is Some && s1[b].hook is Some implies s1[a]
        .hook->Some_0.shooter != s1[b].hook->Some_0.shooter by {
        assert(s1[a].hook == s0[a].hook && s1[b].hook == s0[b].hook);
    }
    assert forall|a: int, b: int|
        #![trigger s1[a].hook, s1[b].id]
        0 <= a < s1.len() && 0 <= b < s1.len() && s1[a].hook is Some && s1[b].id == s1[a]
        .hook->Some_0.shooter implies flow_hook_id(s1[b].grapple) == Some(s1[a].id) by {
        assert(s1[a].hook == s0[a].hook && s1[a].id == s0[a].id);
        assert(s1[b].id == s0[b].id && s1[b].grapple == s0[b].grapple);
    }
}


/// Starting a grapple preserves the world invariant: the shooter moves
/// from an idle flow into an unresolved one, and the pushed hook is the
/// only hook whose shooter it is.
proof fn lemma_start_grapple_wf(w0: World, w1: World, i: int, id: u64, target: Vec2)
    requires
        w0.wf(),
        0 <= i < w0.actors@.len(),
        w0.actors@[i].id == id,
        w0.actors@[i].can_grapple,
        w0.actors@[i].grapple is Idle,
        target.bounded(POS_LIMIT),
        w0.next_id < u64::MAX,
        w1.actors@ == w0.actors@.update(
            i,
            (Actor {
                grapple: (GrappleFlow::Unresolved { hook_entity: w0.next_id }),
                ..w0.actors@[i]
            }),
        ).push(World::hook_actor(w0.next_id, id, target)),
        w1.touching@ == w0.touching@,
        w1.notifications@ == w0.notifications@,
        w1.config == w0.config,
        w1.next_id == w0.next_id + 1,
    ensures
        w1.wf(),
{
    let s0 = w0.actors@;
    let s1 = w1.actors@;
    let n = s0.len() as int;
    assert(s1.len() == n + 1);
    assert forall|a: int, b: int|
        #![trigger s1[a].id, s1[b].id]
        0 <= a < b < s1.len() implies s1[a].id != s1[b].id by {
        if b < n {
            assert(s1[a].id == s0[a].id && s1[b].id == s0[b].id);
        } else {
            assert(s1[b].id == w0.next_id);
            assert(s1[a].id == s0[a].id && s0[a].id < w0.next_id);
        }
    }
    assert forall|a: int| 0 <= a < s1.len() implies (#[trigger] s1[a]).wf() by {
        if a < n && a != i {
            assert(s1[a] == s0[a]);
        }
    }
    assert forall|a: int| 0 <= a < s1.len() implies (#[trigger] s1[a]).id < w1.next_id by {
        if a < n {
            assert(s1[a].id == s0[a].id);
        }
    }
    assert forall|p: u64| #[trigger] hit_count(w1.notifications@, p) <= 1 by {
        assert(hit_count(w0.notifications@, p) <= 1);
    }
    assert forall|a: int|
        0 <= a < s1.len() implies ((#[trigger] s1[a]).projectile matches Some(pr) && !pr.terminal
        ==> hit_count(w1.notifications@, s1[a].id) == 0) by {
        if a < n {
            assert(s1[a].projectile == s0[a].projectile && s1[a].id == s0[a].id);
        } else {
            assert(s1[a].projectile is None);
        }
    }
    assert forall|a: int|
        0 <= a < s1.len() implies ((#[trigger] s1[a]).hook matches Some(h) ==> h.shooter
        < w1.next_id) by {
        if a < n {
            assert(s1[a].hook == s0[a].hook);
        } else {
            assert(s1[a].hook->Some_0.shooter == id && id == s0[i].id);
        }
    }
    assert forall|a: int, b: int|
        #![trigger s1[a].hook, s1[b].hook]
        0 <= a < b < s1.len() && s1[a].hook is Some && s1[b].hook is Some implies s1[a]
        .hook->Some_0.shooter != s1[b].hook->Some_0.shooter by {
        if b < n {
            assert(s1[a].hook == s0[a].hook && s1[b].hook == s0[b].hook);
        } else {
            // the new hook's shooter had an idle flow, so no old hook names it
            assert(s1[a].hook == s0[a].hook);
            if s0[a].hook is Some && s0[a].hook->Some_0.shooter == id {
                assert(flow_hook_id(s0[i].grapple) == Some(s0[a].id));
            }
        }
    }
    assert forall|a: int, b: int|
        #![trigger s1[a].hook, s1[b].id]
        0 <= a < s1.len() && 0 <= b < s1.len() && s1[a].hook is Some && s1[b].id == s1[a]
        .hook->Some_0.shooter implies flow_hook_id(s1[b].grapple) == Some(s1[a].id) by {
        if a < n {
            assert(s1[a].hook == s0[a].hook && s1[a].id == s0[a].id);
            if s0[a].hook is Some {
                let h = s0[a].hook->Some_0;
                if b < n {
                    assert(s1[b].id == s0[b].id);
                    if h.shooter == s0[b].id {
                        assert(flow_hook_id(s0[b].grapple) == Some(s0[a].id));
                        if b == i {
                            // an idle flow names no hook; contradiction
                            assert(flow_hook_id(s0[i].grapple) is None);
                        }
                    }
                } else {
                    assert(s1[b].id == w0.next_id);
                    assert(h.shooter < w0.next_id);
                }
            }
        } else {
            assert(s1[a].hook->Some_0.shooter == id);
            if b < n {
                assert(s1[b].id == s0[b].id);
                if s0[b].id == id {
                    assert(b == i) by {
                        if b != i {
                            assert(s0[b].id != s0[i].id);
                        }
                    }
                }
            } else {
                assert(s1[b].id == w0.next_id);
                assert(id == s0[i].id && s0[i].id < w0.next_id);
            }
        }
    }
}


/// Ending a grapple preserves the world invariant: the shooter's flow is
/// reset and the flow's own hook — the only live hook that names this
/// shooter — is removed when live.
proof fn lemma_end_grapple_wf(w0: World, w1: World, i: int, hook_id: u64)
    requires
        w0.wf(),
        0 <= i < w0.actors@.len(),
        flow_hook_id(w0.actors@[i].grapple) == Some(hook_id),
        w1.actors@ == World::grapple_ended_actors(w0.actors@, w0.actors@[i].id, hook_id),
        w1.touching@ == w0.touching@,
        w1.notifications@ == w0.notifications@,
        w1.config == w0.config,
        w1.next_id == w0.next_id,
    ensures
        w1.wf(),
{
    let s0 = w0.actors@;
    let s1 = w1.actors@;
    let id = s0[i].id;
    lemma_actor_at(s0, i);
    let mid = s0.update(i, (Actor { grapple: GrappleFlow::Idle, ..s0[i] }));
    if has_actor(s0, hook_id) {
        let r = idx_of(s0, hook_id);
        lemma_actor_at(s0, r);
        assert(s1 == mid.remove(r));
        assert(s1.len() == s0.len() - 1);
        assert forall|x: int| 0 <= x < s1.len() implies s1[x] == mid[if x < r {
            x
        } else {
            x + 1
        }] by {}
        assert forall|a: int, b: int|
            #![trigger s1[a].id, s1[b].id]
            0 <= a < b < s1.len() implies s1[a].id != s1[b].id by {
            let a0 = if a < r { a } else { a + 1 };
            let b0 = if b < r { b } else { b + 1 };
            assert(s1[a].id == s0[a0].id && s1[b].id == s0[b0].id);
        }
        assert forall|a: int| 0 <= a < s1.len() implies (#[trigger] s1[a]).wf() by {
            let a0 = if a < r { a } else { a + 1 };
            assert(s1[a] == mid[a0]);
            assert(mid[a0].wf());
        }
        assert forall|a: int| 0 <= a < s1.len() implies (#[trigger] s1[a]).id < w1.next_id by {
            let a0 = if a < r { a } else { a + 1 };
            assert(s1[a].id == s0[a0].id);
        }
        assert forall|a: int|
            0 <= a < s1.len() implies ((#[trigger] s1[a]).projectile matches Some(pr)
            && !pr.terminal ==> hit_count(w1.notifications@, s1[a].id) == 0) by {
            let a0 = if a < r { a } else { a + 1 };
            assert(s1[a].projectile == s0[a0].projectile && s1[a].id == s0[a0].id);
        }
        assert forall|a: int|
            0 <= a < s1.len() implies ((#[trigger] s1[a]).hook matches Some(h) ==> h.shooter
            < w1.next_id) by {
            let a0 = if a < r { a } else { a + 1 };
            assert(s1[a].hook == s0[a0].hook);
        }
        assert forall|a: int, b: int|
            #![trigger s1[a].hook, s1[b].hook]
            0 <= a < b < s1.len() && s1[a].hook is Some && s1[b].hook is Some implies s1[a]
            .hook->Some_0.shooter != s1[b].hook->Some_0.shooter by {
            let a0 = if a < r { a } else { a + 1 };
            let b0 = if b < r { b } else { b + 1 };
            assert(s1[a].hook == s0[a0].hook && s1[b].hook == s0[b0].hook);
        }
        assert forall|a: int, b: int|
            #![trigger s1[a].hook, s1[b].id]
            0 <= a < s1.len() && 0 <= b < s1.len() && s1[a].hook is Some && s1[b].id == s1[a]
            .hook->Some_0.shooter implies flow_hook_id(s1[b].grapple) == Some(s1[a].id) by {
            let a0 = if a < r { a } else { a + 1 };
            let b0 = if b < r { b } else { b + 1 };
            assert(s1[a].hook == s0[a0].hook && s1[a].id == s0[a0].id);
            assert(s1[b].id == s0[b0].id);
            if b0 == i {
                // the idled shooter: its only hook was the one removed
                assert(flow_hook_id(s0[i].grapple) == Some(s0[a0].id));
                assert(s0[a0].id == hook_id);
                assert(s0[r].id == hook_id);
                if a0 != r {
                    assert(s0[a0].id != s0[r].id);
                }
                assert(false);
            } else {
                assert(s1[b].grapple == s0[b0].grapple);
            }
        }
    } else {
        assert(s1 == mid);
        assert forall|a: int, b: int|
            #![trigger s1[a].id, s1[b].id]
            0 <= a < b < s1.len() implies s1[a].id != s1[b].id by {
            assert(s1[a].id == s0[a].id && s1[b].id == s0[b].id);
        }
        assert forall|a: int| 0 <= a < s1.len() implies (#[trigger] s1[a]).wf() by {
            if a != i {
                assert(s1[a] == s0[a]);
            }
        }
        assert forall|a: int| 0 <= a < s1.len() implies (#[trigger] s1[a]).id < w1.next_id by {
            assert(s1[a].id == s0[a].id);
        }
        assert forall|a: int|
            0 <= a < s1.len() implies ((#[trigger] s1[a]).projectile matches Some(pr)
            && !pr.terminal ==> hit_count(w1.notifications@, s1[a].id) == 0) by {
            assert(s1[a].projectile == s0[a].projectile && s1[a].id == s0[a].id);
        }
        assert forall|a: int|
            0 <= a < s1.len() implies ((#[trigger] s1[a]).hook matches Some(h) ==> h.shooter
            < w1.next_id) by {
            assert(s1[a].hook == s0[a].hook);
        }
        assert forall|a: int, b: int|
            #![trigger s1[a].hook, s1[b].hook]
            0 <= a < b < s1.len() && s1[a].hook is Some && s1[b].hook is Some implies s1[a]
            .hook->Some_0.shooter != s1[b].hook->Some_0.shooter by {
            assert(s1[a].hook == s0[a].hook && s1[b].hook == s0[b].hook);
        }
        assert forall|a: int, b: int|
            #![trigger s1[a].hook, s1[b].id]
            0 <= a < s1.len() && 0 <= b < s1.len() && s1[a].hook is Some && s1[b].id == s1[a]
            .hook->Some_0.shooter implies flow_hook_id(s1[b].grapple) == Some(s1[a].id) by {
            assert(s1[a].hook == s0[a].hook && s1[a].id == s0[a].id);
            assert(s1[b].id == s0[b].id);
            if b == i {
                // the old flow named the hook, which is not live, yet
                // actor a would be a live hook named by it
                assert(flow_hook_id(s0[i].grapple) == Some(s0[a].id));
                assert(s0[a].id == hook_id);
                assert(has_actor(s0, hook_id)) by {
                    lemma_actor_at(s0, a);
                }
                assert(false);
            } else {
                assert(s1[b].grapple == s0[b].grapple);
            }
        }
    }
}


/// Two actor sequences with pointwise equal ids agree on which ids are
/// live.
proof fn lemma_same_ids_has_actor(s0: Seq<Actor>, s1: Seq<Actor>, id: u64)
    requires
        s0.len() == s1.len(),
        forall|j: int| 0 <= j < s0.len() ==> (#[trigger] s0[j]).id == s1[j].id,
    ensures
        has_actor(s0, id) == has_actor(s1, id),
{
    if has_actor(s0, id) {
        let j = choose|j: int| 0 <= j < s0.len() && s0[j].id == id;
        assert(s1[j].id == id);
    }
    if has_actor(s1, id) {
        let j = choose|j: int| 0 <= j < s1.len() && s1[j].id == id;
        assert(s0[j].id == id);
    }
}


/// Dropping a pair keeps every remaining pair's ids below the bound.
proof fn lemma_remove_pair_bounded(t: Seq<(u64, u64)>, a: u64, b: u64, k: int, bound: u64)
    requires
        forall|x: int|
            0 <= x < t.len() ==> ((#[trigger] t[x]).0 < bound && t[x].1 < bound),
    ensures
        forall|x: int|
            0 <= x < World::remove_pair_from(t, a, b, k).len() ==> ((#[trigger] World::remove_pair_from(
                t,
                a,
                b,
                k,
            )[x]).0 < bound && World::remove_pair_from(t, a, b, k)[x].1 < bound),
    decreases t.len() - k,
{
    if 0 <= k < t.len() {
        lemma_remove_pair_bounded(t, a, b, k + 1, bound);
        let rest = World::remove_pair_from(t, a, b, k + 1);
        let whole = World::remove_pair_from(t, a, b, k);
        if !((t[k].0 == a && t[k].1 == b) || (t[k].0 == b && t[k].1 == a)) {
            assert forall|x: int|
                0 <= x < whole.len() implies ((#[trigger] whole[x]).0 < bound && whole[x].1
                < bound) by {
                if x == 0 {
                    assert(whole[0] == t[k]);
                } else {
                    assert(whole[x] == rest[x - 1]);
                }
            }
        }
    }
}

/// Dropping a pair keeps every remaining pair irreflexive.
proof fn lemma_remove_pair_irreflexive(t: Seq<(u64, u64)>, a: u64, b: u64, k: int)
    requires
        forall|x: int| 0 <= x < t.len() ==> (#[trigger] t[x]).0 != t[x].1,
    ensures
        forall|x: int|
            0 <= x < World::remove_pair_from(t, a, b, k).len() ==> (#[trigger] World::remove_pair_from(
                t,
                a,
                b,
                k,
            )[x]).0 != World::remove_pair_from(t, a, b, k)[x].1,
    decreases t.len() - k,
{
    if 0 <= k < t.len() {
        lemma_remove_pair_irreflexive(t, a, b, k + 1);
        let rest = World::remove_pair_from(t, a, b, k + 1);
        let whole = World::remove_pair_from(t, a, b, k);
        if !((t[k].0 == a && t[k].1 == b) || (t[k].0 == b && t[k].1 == a)) {
            assert forall|x: int| 0 <= x < whole.len() implies (#[trigger] whole[x]).0
                != whole[x].1 by {
                if x == 0 {
                    assert(whole[0] == t[k]);
                } else {
                    assert(whole[x] == rest[x - 1]);
                }
            }
        }
    }
}


/// Resolving a hit preserves the world invariant: the hit projectile's
/// count rises from zero to one and the projectile leaves the world; no
/// other count changes.
proof fn lemma_apply_hit_wf(w0: World, w1: World, pi: int, ti: int)
    requires
        w0.wf(),
        0 <= pi < w0.actors@.len(),
        0 <= ti < w0.actors@.len(),
        pi != ti,
        w0.actors@[pi].projectile matches Some(pr) && !pr.terminal,
        w1.actors@ == w0.actors@.update(
            ti,
            World::damaged_actor(w0.actors@[ti], w0.actors@[pi].projectile->Some_0.damage),
        ).remove(pi),
        w1.notifications@.len() == w0.notifications@.len() + 1,
        w1.notifications@.drop_last() == w0.notifications@,
        w1.notifications@.last() matches Notification::ProjectileHit { projectile, .. }
            && projectile == w0.actors@[pi].id,
        w1.touching@ == w0.touching@,
        w1.config == w0.config,
        w1.next_id == w0.next_id,
    ensures
        w1.wf(),
{
    let s0 = w0.actors@;
    let s1 = w1.actors@;
    let pid = s0[pi].id;
    let n0 = w0.notifications@;
    let n1 = w1.notifications@;
    assert(s1.len() == s0.len() - 1);
    let mid = s0.update(ti, World::damaged_actor(s0[ti], s0[pi].projectile->Some_0.damage));
    assert forall|x: int| 0 <= x < s1.len() implies s1[x] == mid[if x < pi {
        x
    } else {
        x + 1
    }] by {}
    assert forall|q: u64| #[trigger] hit_count(n1, q) <= 1 by {
        assert(n1.drop_last() == n0);
        assert(hit_count(n0, q) <= 1);
        if q == pid {
            lemma_actor_at(s0, pi);
            assert(hit_count(n0, pid) == 0);
        } else {
            assert(!is_hit_for(n1.last(), q));
        }
    }
    assert(hits_below(n1, w1.next_id)) by {
        assert forall|k: int|
            0 <= k < n1.len() implies ((#[trigger] n1[k]) matches Notification::ProjectileHit {
            projectile,
            ..
        } ==> projectile < w1.next_id) by {
            if k < n0.len() {
                assert(n1[k] == n0[k]);
            } else {
                assert(n1[k] == n1.last());
                assert(s0[pi].id < w0.next_id);
            }
        }
    }
    assert forall|a: int, b: int|
        #![trigger s1[a].id, s1[b].id]
        0 <= a < b < s1.len() implies s1[a].id != s1[b].id by {
        let a0 = if a < pi { a } else { a + 1 };
        let b0 = if b < pi { b } else { b + 1 };
        assert(s1[a].id == s0[a0].id && s1[b].id == s0[b0].id);
    }
    assert forall|a: int| 0 <= a < s1.len() implies (#[trigger] s1[a]).wf() by {
        let a0 = if a < pi { a } else { a + 1 };
        assert(s1[a] == mid[a0]);
        if a0 != ti {
            assert(mid[a0] == s0[a0]);
        }
    }
    assert forall|a: int| 0 <= a < s1.len() implies (#[trigger] s1[a]).id < w1.next_id by {
        let a0 = if a < pi { a } else { a + 1 };
        assert(s1[a].id == s0[a0].id);
    }
    assert forall|a: int|
        0 <= a < s1.len() implies ((#[trigger] s1[a]).projectile matches Some(pr) && !pr.terminal
        ==> hit_count(n1, s1[a].id) == 0) by {
        let a0 = if a < pi { a } else { a + 1 };
        assert(s1[a].projectile == s0[a0].projectile && s1[a].id == s0[a0].id);
        if s1[a].projectile matches Some(pr) && !pr.terminal {
            assert(hit_count(n0, s0[a0].id) == 0);
            assert(a0 != pi);
            assert(s0[a0].id != s0[pi].id);
            assert(!is_hit_for(n1.last(), s0[a0].id));
            assert(n1.drop_last() == n0);
        }
    }
    assert forall|a: int|
        0 <= a < s1.len() implies ((#[trigger] s1[a]).hook matches Some(h) ==> h.shooter
        < w1.next_id) by {
        let a0 = if a < pi { a } else { a + 1 };
        assert(s1[a].hook == s0[a0].hook);
    }
    assert forall|a: int, b: int|
        #![trigger s1[a].hook, s1[b].hook]
        0 <= a < b < s1.len() && s1[a].hook is Some && s1[b].hook is Some implies s1[a]
        .hook->Some_0.shooter != s1[b].hook->Some_0.shooter by {
        let a0 = if a < pi { a } else { a + 1 };
        let b0 = if b < pi { b } else { b + 1 };
        assert(s1[a].hook == s0[a0].hook && s1[b].hook == s0[b0].hook);
    }
    assert forall|a: int, b: int|
        #![trigger s1[a].hook, s1[b].id]
        0 <= a < s1.len() && 0 <= b < s1.len() && s1[a].hook is Some && s1[b].id == s1[a]
        .hook->Some_0.shooter implies flow_hook_id(s1[b].grapple) == Some(s1[a].id) by {
        let a0 = if a < pi { a } else { a + 1 };
        let b0 = if b < pi { b } else { b + 1 };
        assert(s1[a].hook == s0[a0].hook && s1[a].id == s0[a0].id);
        assert(s1[b].id == s0[b0].id && s1[b].grapple == s0[b0].grapple);
    }
    assert forall|k: int|
        0 <= k < w1.touching@.len() implies (#[trigger] w1.touching@[k]).0
        != w1.touching@[k].1 by {
        assert(w1.touching@[k] == w0.touching@[k]);
    }
}


/// Collects the contacts of `id` from the touch relation, in insertion
/// order, skipping `excl`.
pub fn contacts_collect(t: &Vec<(u64, u64)>, id: u64, excl: Option<u64>) -> (r: Vec<u64>)
    ensures
        r@ == contacts_of(t@, id, excl),
{
    let mut out: Vec<u64> = Vec::new();
    let mut k: usize = 0;
    while k < t.len()
        invariant
            0 <= k <= t@.len(),
            contacts_from(t@, id, excl, 0) == out@ + contacts_from(t@, id, excl, k as int),
        decreases t@.len() - k,
    {
        let pair = t[k];
        let other: Option<u64> = if pair.0 == id {
            Some(pair.1)
        } else if pair.1 == id {
            Some(pair.0)
        } else {
            None
        };
        match other {
            Some(o) => {
                let keep = match excl {
                    Some(e) => e != o,
                    None => true,
                };
                if keep {
                    out.push(o);
                    proof {
                        assert(out@ + contacts_from(t@, id, excl, k + 1) =~= out@.drop_last()
                            + (seq![o] + contacts_from(t@, id, excl, k + 1)));
                    }
                }
            },
            None => {},
        }
        k = k + 1;
    }
    proof {
        assert(out@ + contacts_from(t@, id, excl, t@.len() as int) =~= out@);
    }
    out
}


/// Whether actor `id` currently touches anything.
pub fn touches_any_exec(t: &Vec<(u64, u64)>, id: u64) -> (r: bool)
    ensures
        r == touches_any(t@, id),
{
    let mut k: usize = 0;
    while k < t.len()
        invariant
            0 <= k <= t@.len(),
            forall|x: int|
                0 <= x < k ==> !((#[trigger] t@[x]).0 == id || t@[x].1 == id),
        decreases t@.len() - k,
    {
        let pair = t[k];
        if pair.0 == id || pair.1 == id {
            return true;
        }
        k = k + 1;
    }
    false
}


/// Refreshing a swing record in place preserves the world invariant:
/// the updated flow is built around the same hook.
proof fn lemma_wf_after_swing_update(w0: World, w1: World, i: int)
    requires
        w0.wf(),
        0 <= i < w0.actors@.len(),
        w1.actors@.len() == w0.actors@.len(),
        forall|j: int| 0 <= j < w0.actors@.len() && j != i ==> w1.actors@[j] == w0.actors@[j],
        w1.actors@[i].id == w0.actors@[i].id,
        w1.actors@[i].wf(),
        w1.actors@[i].hook == w0.actors@[i].hook,
        flow_hook_id(w1.actors@[i].grapple) == flow_hook_id(w0.actors@[i].grapple),
        w1.actors@[i].projectile == w0.actors@[i].projectile,
        w1.touching@ == w0.touching@,
        w1.notifications@ == w0.notifications@,
        w1.config == w0.config,
        w1.next_id == w0.next_id,
    ensures
        w1.wf(),
{
    let s0 = w0.actors@;
    let s1 = w1.actors@;
    assert forall|a: int, b: int|
        #![trigger s1[a].id, s1[b].id]
        0 <= a < b < s1.len() implies s1[a].id != s1[b].id by {
        assert(s1[a].id == s0[a].id && s1[b].id == s0[b].id);
    }
    assert forall|a: int| 0 <= a < s1.len() implies (#[trigger] s1[a]).wf() by {
        if a != i {
            assert(s1[a] == s0[a]);
        }
    }
    assert forall|a: int| 0 <= a < s1.len() implies (#[trigger] s1[a]).id < w1.next_id by {
        assert(s1[a].id == s0[a].id);
    }
    assert forall|a: int|
        0 <= a < s1.len() implies ((#[trigger] s1[a]).projectile matches Some(pr) && !pr.terminal
        ==> hit_count(w1.notifications@, s1[a].id) == 0) by {
        assert(s1[a].projectile == s0[a].projectile && s1[a].id == s0[a].id);
    }
    assert forall|a: int|
        0 <= a < s1.len() implies ((#[trigger] s1[a]).hook matches Some(h) ==> h.shooter
        < w1.next_id) by {
        assert(s1[a].hook == s0[a].hook);
    }
    assert forall|a: int, b: int|
        #![trigger s1[a].hook, s1[b].hook]
        0 <= a < b < s1.len() && s1[a].hook is Some && s1[b].hook is Some implies s1[a]
        .hook->Some_0.shooter != s1[b].hook->Some_0.shooter by {
        assert(s1[a].hook == s0[a].hook && s1[b].hook == s0[b].hook);
    }
    assert forall|a: int, b: int|
        #![trigger s1[a].hook, s1[b].id]
        0 <= a < s1.len() && 0 <= b < s1.len() && s1[a].hook is Some && s1[b].id == s1[a]
        .hook->Some_0.shooter implies flow_hook_id(s1[b].grapple) == Some(s1[a].id) by {
        assert(s1[a].hook == s0[a].hook && s1[a].id == s0[a].id);
        assert(s1[b].id == s0[b].id);
        assert(flow_hook_id(s1[b].grapple) == flow_hook_id(s0[b].grapple));
    }
}


/// One attachment-resolution step preserves the world invariant: the
/// hook keeps its shooter, the shooter's new flow is built around that
/// very hook, and the raised notification is not a hit.
proof fn lemma_attach_step_wf(w0: World, w1: World, i: int)
    requires
        w0.wf(),
        0 <= i < w0.actors@.len(),
        w1.actors@ == World::attach_phase_step(w0.actors@, w0.touching@, i).0,
        w1.notifications@ == w0.notifications@ + World::attach_phase_step(
            w0.actors@,
            w0.touching@,
            i,
        ).1,
        w1.touching@ == w0.touching@,
        w1.config == w0.config,
        w1.next_id == w0.next_id,
    ensures
        w1.wf(),
{
    let s0 = w0.actors@;
    let s1 = w1.actors@;
    let st = World::attach_phase_step(s0, w0.touching@, i);
    if s0[i].hook is Some && s0[i].hook->Some_0.attached_to is Unattached
        && !(World::attach_resolution(s0, w0.touching@, i) is Unattached) {
        let h = s0[i].hook->Some_0;
        let pick = World::attach_resolution(s0, w0.touching@, i);
        assert(w1.notifications@ =~= w0.notifications@.push(
            (Notification::GrappleAttached { shooter: h.shooter, attachment: pick }),
        ));
        assert forall|p: u64| #[trigger] hit_count(w1.notifications@, p) == hit_count(
            w0.notifications@,
            p,
        ) by {
            lemma_hit_count_push(
                w0.notifications@,
                (Notification::GrappleAttached { shooter: h.shooter, attachment: pick }),
                p,
            );
        }
        assert(hits_below(w1.notifications@, w1.next_id)) by {
            assert forall|k: int|
                0 <= k < w1.notifications@.len() implies ((#[trigger] w1.notifications@[k]) matches
                Notification::ProjectileHit { projectile, .. } ==> projectile < w1.next_id) by {
                if k < w0.notifications@.len() {
                    assert(w1.notifications@[k] == w0.notifications@[k]);
                } else {
                    assert(w1.notifications@[k] matches Notification::GrappleAttached { .. });
                }
            }
        }
        // pointwise description of the actor changes
        assert forall|j: int|
            0 <= j < s1.len() implies (#[trigger] s1[j]).id == s0[j].id && s1[j].pos == s0[j].pos
            && s1[j].vel == s0[j].vel && s1[j].projectile == s0[j].projectile && s1[j].dash
            == s0[j].dash && (s1[j].hook == s0[j].hook || j == i) && (s1[j].grapple == s0[j].grapple
            || (has_actor(s0, h.shooter) && j == idx_of(s0, h.shooter))) by {}
        assert(s1[i].hook == Some(GrapplingHook { shooter: h.shooter, attached_to: pick }));
        assert forall|a: int, b: int|
            #![trigger s1[a].id, s1[b].id]
            0 <= a < b < s1.len() implies s1[a].id != s1[b].id by {
            assert(s1[a].id == s0[a].id && s1[b].id == s0[b].id);
        }
        assert forall|a: int| 0 <= a < s1.len() implies (#[trigger] s1[a]).wf() by {
            if has_actor(s0, h.shooter) && a == idx_of(s0, h.shooter) {
                let sj = idx_of(s0, h.shooter);
                crate::math::lemma_sqrt_floor_is_isqrt(
                    crate::math::dist_sq(s0[sj].pos, s0[i].pos) as nat,
                );
                crate::math::lemma_sq_nonneg(s0[i].pos.x - s0[sj].pos.x);
                crate::math::lemma_sq_nonneg(s0[i].pos.y - s0[sj].pos.y);
                assert(crate::math::dist_sq(s0[sj].pos, s0[i].pos) <= 8_000_000_000_000) by {
                    crate::math::lemma_sq_le(s0[i].pos.x - s0[sj].pos.x, 2_000_000);
                    crate::math::lemma_sq_le(s0[i].pos.y - s0[sj].pos.y, 2_000_000);
                }
                assert(crate::math::sq(crate::math::DIST_LIMIT as int + 1)
                    > crate::math::dist_sq(s0[sj].pos, s0[i].pos)) by (nonlinear_arith)
                    requires
                        crate::math::dist_sq(s0[sj].pos, s0[i].pos) <= 8_000_000_000_000,
                ;
                crate::math::lemma_isqrt_below(
                    crate::math::dist_sq(s0[sj].pos, s0[i].pos),
                    crate::math::dist_s(s0[sj].pos, s0[i].pos),
                    crate::math::DIST_LIMIT as int + 1,
                );
            }
        }
        assert forall|a: int| 0 <= a < s1.len() implies (#[trigger] s1[a]).id < w1.next_id by {
            assert(s1[a].id == s0[a].id);
        }
        assert forall|a: int|
            0 <= a < s1.len() implies ((#[trigger] s1[a]).projectile matches Some(pr)
            && !pr.terminal ==> hit_count(w1.notifications@, s1[a].id) == 0) by {
            assert(s1[a].projectile == s0[a].projectile && s1[a].id == s0[a].id);
        }
        assert forall|a: int|
            0 <= a < s1.len() implies ((#[trigger] s1[a]).hook matches Some(hh) ==> hh.shooter
            < w1.next_id) by {
            if a != i {
                assert(s1[a].hook == s0[a].hook);
            }
        }
        assert forall|a: int, b: int|
            #![trigger s1[a].hook, s1[b].hook]
            0 <= a < b < s1.len() && s1[a].hook is Some && s1[b].hook is Some implies s1[a]
            .hook->Some_0.shooter != s1[b].hook->Some_0.shooter by {
            assert(s1[a].hook is Some ==> s0[a].hook is Some && s1[a].hook->Some_0.shooter == s0[a]
                .hook->Some_0.shooter);
            assert(s1[b].hook is Some ==> s0[b].hook is Some && s1[b].hook->Some_0.shooter == s0[b]
                .hook->Some_0.shooter);
        }
        assert forall|a: int, b: int|
            #![trigger s1[a].hook, s1[b].id]
            0 <= a < s1.len() && 0 <= b < s1.len() && s1[a].hook is Some && s1[b].id == s1[a]
            .hook->Some_0.shooter implies flow_hook_id(s1[b].grapple) == Some(s1[a].id) by {
            assert(s1[a].hook is Some ==> s0[a].hook is Some && s1[a].hook->Some_0.shooter == s0[a]
                .hook->Some_0.shooter);
            assert(s1[a].id == s0[a].id && s1[b].id == s0[b].id);
            if has_actor(s0, h.shooter) && b == idx_of(s0, h.shooter) {
                lemma_actor_at(s0, idx_of(s0, h.shooter));
                // only the resolving hook names this shooter
                assert(s0[a].hook->Some_0.shooter == s0[b].id);
                assert(s0[b].id == h.shooter);
                if a != i {
                    assert(s0[i].hook->Some_0.shooter == h.shooter);
                    assert(s0[a].hook->Some_0.shooter != s0[i].hook->Some_0.shooter);
                    assert(false);
                }
                assert(flow_hook_id(s1[b].grapple) == Some(s0[i].id));
            } else {
                assert(s1[b].grapple == s0[b].grapple);
            }
        }
    } else {
        assert(s1 == s0);
        assert(w1.notifications@ =~= w0.notifications@);
    }
}


/// The attachment phase never changes an actor's identity, physics
/// mirror, tags, health, dash or projectile records; a hook that is
/// already attached, or absent, is left alone.
pub proof fn lemma_attach_upto_frame(s: Seq<Actor>, t: Seq<(u64, u64)>, k: int)
    requires
        0 <= k <= s.len(),
    ensures
        World::attach_phase_upto(s, t, k).0.len() == s.len(),
        forall|j: int|
            0 <= j < s.len() ==> {
                let r = #[trigger] World::attach_phase_upto(s, t, k).0[j];
                r.id == s[j].id && r.pos == s[j].pos && r.vel == s[j].vel && r.gravity_scale
                    == s[j].gravity_scale && r.can_dash == s[j].can_dash && r.can_grapple == s[j]
                    .can_grapple && r.is_enemy == s[j].is_enemy && r.hittable == s[j].hittable
                    && r.health == s[j].health && r.defense == s[j].defense && r.dash == s[j].dash
                    && r.projectile == s[j].projectile
            },
        forall|j: int|
            0 <= j < s.len() && (#[trigger] s[j].hook) is Some && !(s[j].hook->Some_0.attached_to
                is Unattached) ==> World::attach_phase_upto(s, t, k).0[j].hook == s[j].hook,
        forall|j: int|
            0 <= j < s.len() && (#[trigger] s[j].hook) is None ==> World::attach_phase_upto(
                s,
                t,
                k,
            ).0[j].hook is None,
    decreases k,
{
    if k > 0 {
        lemma_attach_upto_frame(s, t, k - 1);
        let prev = World::attach_phase_upto(s, t, k - 1).0;
        let st = World::attach_phase_step(prev, t, k - 1).0;
        assert forall|j: int| 0 <= j < s.len() implies (#[trigger] st[j]).id == prev[j].id
            && st[j].pos == prev[j].pos && st[j].vel == prev[j].vel && st[j].gravity_scale
            == prev[j].gravity_scale && st[j].can_dash == prev[j].can_dash && st[j].can_grapple
            == prev[j].can_grapple && st[j].is_enemy == prev[j].is_enemy && st[j].hittable
            == prev[j].hittable && st[j].health == prev[j].health && st[j].defense == prev[j]
            .defense && st[j].dash == prev[j].dash && st[j].projectile == prev[j].projectile
            && (prev[j].hook is Some && !(prev[j].hook->Some_0.attached_to is Unattached)
            ==> st[j].hook == prev[j].hook) && (prev[j].hook is None ==> st[j].hook is None) by {}
    }
}

/// The dash phase acts pointwise: each actor's dash record is stepped
/// against its own touch-set, and nothing else about it changes.
pub proof fn lemma_dash_upto_pointwise(s: Seq<Actor>, t: Seq<(u64, u64)>, now: u64, k: int)
    requires
        0 <= k <= s.len(),
    ensures
        World::dash_phase_upto(s, t, now, k).0.len() == s.len(),
        forall|j: int|
            0 <= j < k ==> #[trigger] World::dash_phase_upto(s, t, now, k).0[j]
                == World::dash_phase_step(s, t, now, j).0[j],
        forall|j: int|
            k <= j < s.len() ==> #[trigger] World::dash_phase_upto(s, t, now, k).0[j] == s[j],
    decreases k,
{
    if k > 0 {
        lemma_dash_upto_pointwise(s, t, now, k - 1);
        let prev = World::dash_phase_upto(s, t, now, k - 1).0;
        let cur = World::dash_phase_upto(s, t, now, k).0;
        assert(prev[k - 1] == s[k - 1]);
        assert forall|j: int| 0 <= j < k implies #[trigger] cur[j] == World::dash_phase_step(
            s,
            t,
            now,
            j,
        ).0[j] by {
            if j < k - 1 {
                assert(cur[j] == prev[j]);
            }
        }
    }
}

/// The swing phase changes only the grapple record of swinging actors.
pub proof fn lemma_swing_upto_frame(s: Seq<Actor>, cfg: GrapplingHookConfig, dt_ms: u64, k: int)
    requires
        0 <= k <= s.len(),
    ensures
        World::swing_phase_upto(s, cfg, dt_ms, k).0.len() == s.len(),
        forall|j: int|
            0 <= j < s.len() ==> {
                let r = #[trigger] World::swing_phase_upto(s, cfg, dt_ms, k).0[j];
                r.id == s[j].id && r.pos == s[j].pos && r.vel == s[j].vel && r.gravity_scale
                    == s[j].gravity_scale && r.can_dash == s[j].can_dash && r.can_grapple == s[j]
                    .can_grapple && r.is_enemy == s[j].is_enemy && r.hittable == s[j].hittable
                    && r.health == s[j].health && r.defense == s[j].defense && r.dash == s[j].dash
                    && r.projectile == s[j].projectile && r.hook == s[j].hook
            },
    decreases k,
{
    if k > 0 {
        lemma_swing_upto_frame(s, cfg, dt_ms, k - 1);
    }
}

/// The follow phase changes only the positions of enemy-attached hooks.
pub proof fn lemma_follow_upto_frame(s: Seq<Actor>, k: int)
    requires
        0 <= k <= s.len(),
    ensures
        World::follow_phase_upto(s, k).0.len() == s.len(),
        forall|j: int|
            0 <= j < s.len() ==> {
                let r = #[trigger] World::follow_phase_upto(s, k).0[j];
                r.id == s[j].id && r.vel == s[j].vel && r.gravity_scale == s[j].gravity_scale
                    && r.can_dash == s[j].can_dash && r.can_grapple == s[j].can_grapple
                    && r.is_enemy == s[j].is_enemy && r.hittable == s[j].hittable && r.health
                    == s[j].health && r.defense == s[j].defense && r.dash == s[j].dash
                    && r.projectile == s[j].projectile && r.hook == s[j].hook && r.grapple == s[j]
                    .grapple
            },
    decreases k,
{
    if k > 0 {
        lemma_follow_upto_frame(s, k - 1);
    }
}

/// Every notification the attachment phase raises reports an attachment.
pub proof fn lemma_attach_upto_notifs(s: Seq<Actor>, t: Seq<(u64, u64)>, k: int)
    requires
        0 <= k <= s.len(),
    ensures
        forall|x: int|
            0 <= x < World::attach_phase_upto(s, t, k).1.len() ==> (#[trigger] World::attach_phase_upto(
                s,
                t,
                k,
            ).1[x]) matches Notification::GrappleAttached { .. },
    decreases k,
{
    if k > 0 {
        lemma_attach_upto_notifs(s, t, k - 1);
        let prev = World::attach_phase_upto(s, t, k - 1).1;
        let stn = World::attach_phase_step(World::attach_phase_upto(s, t, k - 1).0, t, k - 1).1;
        let whole = World::attach_phase_upto(s, t, k).1;
        assert forall|x: int|
            0 <= x < whole.len() implies (#[trigger] whole[x]) matches Notification::GrappleAttached {
            ..
        } by {
            if x < prev.len() {
                assert(whole[x] == prev[x]);
            } else {
                assert(whole[x] == stn[x - prev.len()]);
            }
        }
    }
}


/// Copies a list of actor ids.
pub fn copy_ids(v: &Vec<u64>) -> (r: Vec<u64>)
    ensures
        r@ == v@,
{
    let mut out: Vec<u64> = Vec::new();
    let mut i: usize = 0;
    while i < v.len()
        invariant
            0 <= i <= v@.len(),
            out@ == v@.subrange(0, i as int),
        decreases v@.len() - i,
    {
        out.push(v[i]);
        proof {
            assert(out@ =~= v@.subrange(0, i + 1));
        }
        i = i + 1;
    }
    proof {
        assert(out@ =~= v@);
    }
    out
}

/// At-most-one-hit law: in any well-formed world — and every operation
/// of this core preserves well-formedness — a projectile has raised at
/// most one hit notification over its whole lifetime, whatever touches
/// occurred, even several in one tick's batch.
pub proof fn lemma_at_most_one_hit(w: World, p: u64)
    requires
        w.wf(),
    ensures
        hit_count(w.notifications@, p) <= 1,
{
}


/// Extending a processed batch by one more event extends the pass
/// relation.
proof fn lemma_events_pass_snoc(w0: World, w1: World, w2: World, events: Seq<InputEvent>,
    e: InputEvent, now_ms: u64, touch_pass: bool)
    requires
        World::events_pass_rel(w0, w1, events, now_ms, touch_pass),
        World::event_step_rel(w1, w2, e, now_ms, touch_pass),
    ensures
        World::events_pass_rel(w0, w2, events.push(e), now_ms, touch_pass),
    decreases events.len(),
{
    let whole = events.push(e);
    assert(whole[0] == if events.len() == 0 {
        e
    } else {
        events[0]
    });
    if events.len() == 0 {
        assert(w1 == w0);
        assert(whole.skip(1) =~= Seq::<InputEvent>::empty());
        assert(World::event_step_rel(w0, w2, whole[0], now_ms, touch_pass));
        assert(World::events_pass_rel(w2, w2, whole.skip(1), now_ms, touch_pass));
    } else {
        let mid = choose|mid: World|
            #[trigger] World::event_step_rel(w0, mid, events[0], now_ms, touch_pass)
                && World::events_pass_rel(mid, w1, events.skip(1), now_ms, touch_pass);
        lemma_events_pass_snoc(mid, w1, w2, events.skip(1), e, now_ms, touch_pass);
        assert(whole.skip(1) =~= events.skip(1).push(e));
        assert(World::event_step_rel(w0, mid, whole[0], now_ms, touch_pass));
    }
}

}
