use platformer_core::config::GrapplingHookConfig;
use platformer_core::math::Vec2;
use platformer_core::world::{Health, PhysicsCommand, World};

fn world() -> World {
    World::new(GrapplingHookConfig::default())
}

fn actor_by_id(w: &World, id: u64) -> &platformer_core::world::Actor {
    w.actors.iter().find(|a| a.id == id).expect("actor should be live")
}

fn has_actor_id(w: &World, id: u64) -> bool {
    w.actors.iter().any(|a| a.id == id)
}

#[test]
fn dash_scenario_velocity_then_timeout() {
    // StartDash(A, dir=(1,0), speed=4000, duration=0.15s, start=0):
    // at t=0.05 the velocity override is (4000, 0) and the record is
    // present; at t=0.16 the record is gone and the velocity is zero.
    let mut w = world();
    let a = w.spawn_actor(Vec2 { x: 0, y: 0 }, true, false, false, false, None);
    w.start_dash(a, Vec2 { x: 1000, y: 0 }, 4000, 150, 0);
    assert!(w.is_dashing(a));
    assert_eq!(actor_by_id(&w, a).vel, Vec2 { x: 4000, y: 0 });
    assert_eq!(actor_by_id(&w, a).gravity_scale, 0);
    w.dash_system(50);
    assert!(w.is_dashing(a));
    assert_eq!(actor_by_id(&w, a).vel, Vec2 { x: 4000, y: 0 });
    w.dash_system(160);
    assert!(!w.is_dashing(a));
    assert_eq!(actor_by_id(&w, a).vel, Vec2 { x: 0, y: 0 });
    assert_eq!(actor_by_id(&w, a).gravity_scale, 1);
    assert!(w.commands.contains(&PhysicsCommand::SetVelocity {
        actor: a,
        velocity: Vec2 { x: 0, y: 0 },
    }));
    assert!(w.commands.contains(&PhysicsCommand::SetGravityScale { actor: a, scale: 1 }));
}

#[test]
fn dash_timeout_boundary_is_strict() {
    // The dash ends at the first tick strictly past start + duration.
    let mut w = world();
    let a = w.spawn_actor(Vec2 { x: 0, y: 0 }, true, false, false, false, None);
    w.start_dash(a, Vec2 { x: 1000, y: 0 }, 4000, 150, 0);
    w.dash_system(150);
    assert!(w.is_dashing(a));
    w.dash_system(151);
    assert!(!w.is_dashing(a));
}

#[test]
fn dash_grace_frame_spares_preexisting_touch() {
    // An actor resting on the floor keeps its dash through the first
    // tick despite the old contact, but a contact on the second tick
    // terminates it.
    let mut w = world();
    let floor = w.spawn_actor(Vec2 { x: 0, y: -100 }, false, false, false, true, None);
    let a = w.spawn_actor(Vec2 { x: 0, y: 0 }, true, false, false, false, None);
    w.on_touch_start(a, floor);
    w.start_dash(a, Vec2 { x: 1000, y: 0 }, 4000, 1000, 0);
    w.dash_system(10);
    assert!(w.is_dashing(a), "grace frame must spare the stale contact");
    w.dash_system(20);
    assert!(!w.is_dashing(a), "a second-tick contact must end the dash");
    assert_eq!(actor_by_id(&w, a).vel, Vec2 { x: 0, y: 0 });
}

#[test]
fn dash_without_capability_is_ignored() {
    let mut w = world();
    let a = w.spawn_actor(Vec2 { x: 5, y: 6 }, false, false, false, false, None);
    let commands_before = w.commands.len();
    w.start_dash(a, Vec2 { x: 1000, y: 0 }, 4000, 150, 0);
    assert!(!w.is_dashing(a));
    assert_eq!(actor_by_id(&w, a).vel, Vec2 { x: 0, y: 0 });
    assert_eq!(w.commands.len(), commands_before);
}

#[test]
fn dash_for_missing_actor_is_ignored() {
    let mut w = world();
    w.start_dash(99, Vec2 { x: 1000, y: 0 }, 4000, 150, 0);
    assert!(w.actors.is_empty());
    assert!(w.commands.is_empty());
}

#[test]
fn end_dash_is_idempotent() {
    let mut w = world();
    let a = w.spawn_actor(Vec2 { x: 0, y: 0 }, true, false, false, false, None);
    w.end_dash(a);
    assert!(w.commands.is_empty());
    w.start_dash(a, Vec2 { x: 0, y: 1000 }, 300, 150, 0);
    w.end_dash(a);
    assert!(!w.is_dashing(a));
    let commands_after = w.commands.len();
    w.end_dash(a);
    assert_eq!(w.commands.len(), commands_after);
}

#[test]
fn dash_velocity_scales_direction() {
    // A diagonal unit direction (707, 707)/1000 at speed 4000 gives
    // componentwise truncation: 707 * 4000 / 1000 = 2828.
    let mut w = world();
    let a = w.spawn_actor(Vec2 { x: 0, y: 0 }, true, false, false, false, None);
    w.start_dash(a, Vec2 { x: 707, y: -707 }, 4000, 150, 0);
    assert_eq!(actor_by_id(&w, a).vel, Vec2 { x: 2828, y: -2828 });
}

#[test]
fn despawned_actor_is_gone() {
    let mut w = world();
    let a = w.spawn_actor(Vec2 { x: 0, y: 0 }, true, false, false, true, Some(Health(50)));
    assert!(has_actor_id(&w, a));
    w.despawn_actor(a);
    assert!(!has_actor_id(&w, a));
    // despawning again is a no-op
    w.despawn_actor(a);
    assert!(w.actors.is_empty());
}

#[test]
fn set_physics_state_updates_mirror() {
    let mut w = world();
    let a = w.spawn_actor(Vec2 { x: 0, y: 0 }, false, false, false, false, None);
    w.set_physics_state(a, Vec2 { x: 17, y: -3 }, Vec2 { x: 2, y: 9 });
    assert_eq!(actor_by_id(&w, a).pos, Vec2 { x: 17, y: -3 });
    assert_eq!(actor_by_id(&w, a).vel, Vec2 { x: 2, y: 9 });
}

#[test]
fn touch_naming_an_unknown_body_is_ignored() {
    // A touch notification naming a body the core does not know (a
    // dangling reference) records nothing and changes nothing.
    let mut w = world();
    let a = w.spawn_actor(Vec2 { x: 0, y: 0 }, true, false, false, false, None);
    w.on_touch_start(a, 999);
    assert!(w.touching.is_empty());
    w.on_touch_start(998, 999);
    assert!(w.touching.is_empty());
    assert!(w.notifications.is_empty());
    assert!(w.commands.is_empty());
}
