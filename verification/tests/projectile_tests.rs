use platformer_core::config::{
    GrapplingHookConfig, PLAYER_PROJECTILE_DAMAGE, PROJECTILE_DEFAULT_KNOCKBACK,
    PROJECTILE_DEFAULT_VELOCITY,
};
use platformer_core::math::Vec2;
use platformer_core::projectile::apply_damage;
use platformer_core::world::{Health, InputEvent, Notification, PhysicsCommand, World};

fn world() -> World {
    World::new(GrapplingHookConfig::default())
}

fn actor_by_id(w: &World, id: u64) -> &platformer_core::world::Actor {
    w.actors.iter().find(|a| a.id == id).expect("actor should be live")
}

fn has_actor_id(w: &World, id: u64) -> bool {
    w.actors.iter().any(|a| a.id == id)
}

fn hit_count_for(w: &World, p: u64) -> usize {
    w.notifications
        .iter()
        .filter(|n| matches!(n, Notification::ProjectileHit { projectile, .. } if *projectile == p))
        .count()
}

#[test]
fn projectile_spawns_ballistic() {
    let mut w = world();
    let r = w.spawn_projectile(
        Vec2 { x: 0, y: 0 },
        Vec2 { x: 1000, y: 0 },
        PROJECTILE_DEFAULT_VELOCITY,
        PLAYER_PROJECTILE_DAMAGE,
        PROJECTILE_DEFAULT_KNOCKBACK,
        Vec::new(),
    );
    let a = actor_by_id(&w, r);
    assert_eq!(a.vel, Vec2 { x: 1000, y: 0 });
    assert_eq!(a.gravity_scale, 0);
    let pr = a.projectile.as_ref().expect("projectile record");
    assert_eq!(pr.damage, 20);
    assert_eq!(pr.knockback, 100_000);
    assert!(pr.exclusion.is_empty());
    assert!(!pr.terminal);
}

#[test]
fn hit_applies_damage_knockback_and_despawn() {
    let mut w = world();
    let t = w.spawn_actor(Vec2 { x: 100, y: 0 }, false, false, true, true, Some(Health(50)));
    let r = w.spawn_projectile(
        Vec2 { x: 0, y: 0 },
        Vec2 { x: 1000, y: 0 },
        1000,
        20,
        100_000,
        Vec::new(),
    );
    w.on_touch_start(r, t);
    assert_eq!(hit_count_for(&w, r), 1);
    assert_eq!(w.health_of(t), Some(Health(30)));
    assert!(!has_actor_id(&w, r), "the projectile despawns on its hit");
    assert!(w.commands.contains(&PhysicsCommand::Wake { actor: t }));
    // knockback = normalized velocity (1000, 0) times magnitude 100_000
    assert!(w.commands.contains(&PhysicsCommand::ApplyImpulse {
        actor: t,
        impulse: Vec2 { x: 100_000, y: 0 },
    }));
    assert!(w.commands.contains(&PhysicsCommand::Despawn { actor: r }));
    assert!(w.notifications.contains(&Notification::ProjectileHit {
        projectile: r,
        target: t,
        damage: 20,
        knockback_impulse: Vec2 { x: 100_000, y: 0 },
    }));
}

#[test]
fn knockback_follows_diagonal_velocity() {
    // velocity (3000, 4000) has length 5000; knockback 100_000 scales
    // to (60_000, 80_000).
    let mut w = world();
    let t = w.spawn_actor(Vec2 { x: 30, y: 40 }, false, false, false, true, None);
    let r = w.spawn_projectile(
        Vec2 { x: 0, y: 0 },
        Vec2 { x: 600, y: 800 },
        5000,
        10,
        100_000,
        Vec::new(),
    );
    assert_eq!(actor_by_id(&w, r).vel, Vec2 { x: 3000, y: 4000 });
    w.on_touch_start(r, t);
    assert!(w.commands.contains(&PhysicsCommand::ApplyImpulse {
        actor: t,
        impulse: Vec2 { x: 60_000, y: 80_000 },
    }));
}

#[test]
fn at_most_one_hit_with_two_simultaneous_targets() {
    // Two eligible targets touch the projectile in the same batch: the
    // first touch marks it terminal and despawns it, so exactly one hit
    // is raised.
    let mut w = world();
    let t1 = w.spawn_actor(Vec2 { x: 10, y: 0 }, false, false, true, true, Some(Health(50)));
    let t2 = w.spawn_actor(Vec2 { x: 10, y: 1 }, false, false, true, true, Some(Health(50)));
    let r = w.spawn_projectile(
        Vec2 { x: 10, y: 0 },
        Vec2 { x: 1000, y: 0 },
        1000,
        20,
        100_000,
        Vec::new(),
    );
    w.on_touch_start(r, t1);
    w.on_touch_start(r, t2);
    assert_eq!(hit_count_for(&w, r), 1);
    assert_eq!(w.health_of(t1), Some(Health(30)));
    assert_eq!(w.health_of(t2), Some(Health(50)), "the second target is untouched");
}

#[test]
fn hit_direction_is_symmetric_in_the_touch_pair() {
    // The projectile may arrive as either side of the touch
    // notification.
    let mut w = world();
    let t = w.spawn_actor(Vec2 { x: 0, y: 0 }, false, false, true, true, Some(Health(50)));
    let r = w.spawn_projectile(
        Vec2 { x: 0, y: 0 },
        Vec2 { x: 1000, y: 0 },
        1000,
        20,
        100_000,
        Vec::new(),
    );
    w.on_touch_start(t, r);
    assert_eq!(hit_count_for(&w, r), 1);
    assert_eq!(w.health_of(t), Some(Health(30)));
}

#[test]
fn exclusion_prevents_self_hit_until_separation() {
    // A projectile spawned excluding its firer does not hit it while
    // touching; once they separate and touch again, it does hit —
    // the exclusion is consumed by separation, not by time.
    let mut w = world();
    let s = w.spawn_actor(Vec2 { x: 0, y: 0 }, false, false, false, true, Some(Health(100)));
    let r = w.spawn_projectile(
        Vec2 { x: 0, y: 0 },
        Vec2 { x: 1000, y: 0 },
        1000,
        20,
        100_000,
        vec![s],
    );
    w.on_touch_start(r, s);
    assert_eq!(hit_count_for(&w, r), 0, "the firer is excluded at the muzzle");
    assert_eq!(w.health_of(s), Some(Health(100)));
    w.on_touch_end(r, s);
    let a = actor_by_id(&w, r);
    assert!(a.projectile.as_ref().unwrap().exclusion.is_empty(), "separation consumed the entry");
    w.on_touch_start(r, s);
    assert_eq!(hit_count_for(&w, r), 1, "a renewed touch does hit the firer");
    assert_eq!(w.health_of(s), Some(Health(80)));
}

#[test]
fn exclusion_decays_by_current_touch_set() {
    // The per-tick decay drops every entry not currently touching the
    // projectile.
    let mut w = world();
    let s = w.spawn_actor(Vec2 { x: 0, y: 0 }, false, false, false, true, None);
    let other = w.spawn_actor(Vec2 { x: 5, y: 0 }, false, false, false, true, None);
    let r = w.spawn_projectile(
        Vec2 { x: 0, y: 0 },
        Vec2 { x: 1000, y: 0 },
        1000,
        20,
        100_000,
        vec![s, other],
    );
    w.on_touch_start(r, s);
    w.exclusion_decay();
    let excl = &actor_by_id(&w, r).projectile.as_ref().unwrap().exclusion;
    assert_eq!(excl.as_slice(), &[s], "only the entry still in contact survives");
}

#[test]
fn ineligible_target_is_ignored() {
    let mut w = world();
    let t = w.spawn_actor(Vec2 { x: 0, y: 0 }, false, false, false, false, Some(Health(50)));
    let r = w.spawn_projectile(
        Vec2 { x: 0, y: 0 },
        Vec2 { x: 1000, y: 0 },
        1000,
        20,
        100_000,
        Vec::new(),
    );
    w.on_touch_start(r, t);
    assert_eq!(hit_count_for(&w, r), 0);
    assert!(has_actor_id(&w, r), "no hit, no despawn");
    assert_eq!(w.health_of(t), Some(Health(50)));
}

#[test]
fn health_floor_never_negative() {
    // Repeated hits never drive health below zero.
    let mut w = world();
    let t = w.spawn_actor(Vec2 { x: 0, y: 0 }, false, false, true, true, Some(Health(25)));
    for _ in 0..3 {
        let r = w.spawn_projectile(
            Vec2 { x: 0, y: 0 },
            Vec2 { x: 1000, y: 0 },
            1000,
            20,
            100_000,
            Vec::new(),
        );
        w.on_touch_start(r, t);
    }
    assert_eq!(w.health_of(t), Some(Health(0)), "clamped at zero, never negative");
}

#[test]
fn apply_damage_clamps_at_zero() {
    assert_eq!(apply_damage(25, 20), 5);
    assert_eq!(apply_damage(5, 20), 0);
    assert_eq!(apply_damage(20, 20), 0);
    assert_eq!(apply_damage(0, 1), 0);
}

#[test]
fn hit_on_target_without_health_still_knocks_back() {
    let mut w = world();
    let t = w.spawn_actor(Vec2 { x: 0, y: 0 }, false, false, false, true, None);
    let r = w.spawn_projectile(
        Vec2 { x: 0, y: 0 },
        Vec2 { x: 0, y: 1000 },
        1000,
        20,
        50_000,
        Vec::new(),
    );
    w.on_touch_start(r, t);
    assert_eq!(hit_count_for(&w, r), 1);
    assert_eq!(w.health_of(t), None);
    assert!(w.commands.contains(&PhysicsCommand::ApplyImpulse {
        actor: t,
        impulse: Vec2 { x: 0, y: 50_000 },
    }));
}

#[test]
fn step_runs_a_whole_scripted_tick() {
    // A queued batch: a touch transition, a fire intent and a dash
    // intent, drained in the required order, then the continuous tick.
    let mut w = world();
    let p = w.spawn_actor(Vec2 { x: 0, y: 0 }, true, true, false, false, Some(Health(100)));
    let e = w.spawn_actor(Vec2 { x: 500, y: 0 }, false, false, true, true, Some(Health(40)));
    let events = vec![
        InputEvent::StartDash {
            actor: p,
            direction: Vec2 { x: 1000, y: 0 },
            speed: 4000,
            duration_ms: 150,
        },
        InputEvent::FireProjectile {
            position: Vec2 { x: 0, y: 0 },
            direction: Vec2 { x: 1000, y: 0 },
            speed: 1000,
            damage: 20,
            knockback: 100_000,
            exclude: vec![p],
        },
    ];
    w.step(0, 10, &events);
    assert!(w.is_dashing(p));
    assert_eq!(w.actors.len(), 3, "the projectile was spawned");
    // the projectile reaches the enemy on a later tick
    let r = w.actors.iter().find(|a| a.projectile.is_some()).unwrap().id;
    let events2 = vec![InputEvent::TouchStart { a: r, b: e }];
    w.step(20, 10, &events2);
    assert_eq!(w.health_of(e), Some(Health(20)));
    assert_eq!(hit_count_for(&w, r), 1);
}
