use platformer_core::config::{
    GrapplingHookConfig, DEFAULT_GRAPPLE_PULL_IMPULSE, DEFAULT_GRAPPLING_HOOK_DAMPENING,
    DEFAULT_GRAPPLING_HOOK_SPRING_FORCE,
};
use platformer_core::grapple::{GrappleFlow, HookAttachment};
use platformer_core::math::Vec2;
use platformer_core::world::{Notification, PhysicsCommand, World};

fn world() -> World {
    World::new(GrapplingHookConfig::default())
}

fn actor_by_id(w: &World, id: u64) -> &platformer_core::world::Actor {
    w.actors.iter().find(|a| a.id == id).expect("actor should be live")
}

fn has_actor_id(w: &World, id: u64) -> bool {
    w.actors.iter().any(|a| a.id == id)
}

#[test]
fn config_default_values() {
    let c = GrapplingHookConfig::default();
    assert_eq!(c.spring_force, DEFAULT_GRAPPLING_HOOK_SPRING_FORCE);
    assert_eq!(c.spring_dampening, DEFAULT_GRAPPLING_HOOK_DAMPENING);
    assert_eq!(c.pull_impulse, DEFAULT_GRAPPLE_PULL_IMPULSE);
    assert_eq!(c.spring_force, 100_000);
    assert_eq!(c.spring_dampening, 1_000_000);
    assert_eq!(c.pull_impulse, 100_000);
}

#[test]
fn swing_scenario_anchor_and_clean_release() {
    // Shooter P grapples world point W = (300, 400); the hook reaches W
    // with no enemy present, so P swings with anchor W and rope rest
    // length |P - W| = 500; EndGrapple removes the swing and despawns
    // the hook with no impulse on P.
    let mut w = world();
    let p = w.spawn_actor(Vec2 { x: 0, y: 0 }, false, true, false, false, None);
    let ground = w.spawn_actor(Vec2 { x: 300, y: 400 }, false, false, false, true, None);
    let hook = w.start_grapple(p, Vec2 { x: 300, y: 400 }).expect("grapple should start");
    assert!(w.is_grappling(p));
    assert!(!w.is_swinging(p));
    assert_eq!(actor_by_id(&w, hook).pos, Vec2 { x: 300, y: 400 });
    w.on_touch_start(hook, ground);
    w.attach_hooks();
    assert!(w.is_swinging(p));
    match &actor_by_id(&w, p).grapple {
        GrappleFlow::Swinging(sw) => {
            assert_eq!(sw.hook_entity, hook);
            assert_eq!(sw.anchor, Vec2 { x: 300, y: 400 });
            assert_eq!(sw.rope_rest_length, 500);
            assert_eq!(sw.previous_distance_from_hook, None);
        }
        other => panic!("expected a swing, found {:?}", other),
    }
    let hook_record = actor_by_id(&w, hook).hook.as_ref().expect("hook record");
    assert_eq!(hook_record.attached_to, HookAttachment::AttachedWorld);
    assert!(w.notifications.contains(&Notification::GrappleAttached {
        shooter: p,
        attachment: HookAttachment::AttachedWorld,
    }));
    let impulses_before =
        w.commands.iter().filter(|c| matches!(c, PhysicsCommand::ApplyImpulse { .. })).count();
    w.end_grapple(p);
    assert!(!w.is_swinging(p));
    assert!(!w.is_grappling(p));
    assert!(!has_actor_id(&w, hook));
    assert!(w.commands.contains(&PhysicsCommand::Despawn { actor: hook }));
    let impulses_after =
        w.commands.iter().filter(|c| matches!(c, PhysicsCommand::ApplyImpulse { .. })).count();
    assert_eq!(impulses_before, impulses_after, "a swing release applies no impulse");
}

#[test]
fn pull_scenario_rope_length_and_release_impulse() {
    // Shooter P grapples; the hook strikes enemy E at distance 300, so
    // P pulls with rope length 300; EndGrapple yanks E once with the
    // configured magnitude, directed from E toward P.
    let mut w = world();
    let p = w.spawn_actor(Vec2 { x: 0, y: 0 }, false, true, false, false, None);
    let e = w.spawn_actor(Vec2 { x: 300, y: 0 }, false, false, true, true, None);
    let hook = w.start_grapple(p, Vec2 { x: 300, y: 0 }).expect("grapple should start");
    w.on_touch_start(hook, e);
    w.attach_hooks();
    assert!(w.is_pulling(p));
    match &actor_by_id(&w, p).grapple {
        GrappleFlow::Pulling(pull) => {
            assert_eq!(pull.hook_entity, hook);
            assert_eq!(pull.enemy, e);
            assert_eq!(pull.rope_length, 300);
        }
        other => panic!("expected a pull, found {:?}", other),
    }
    assert!(w.notifications.contains(&Notification::GrappleAttached {
        shooter: p,
        attachment: HookAttachment::AttachedEnemy(e),
    }));
    w.end_grapple(p);
    assert!(!w.is_pulling(p));
    assert!(!has_actor_id(&w, hook));
    let yanks: Vec<&PhysicsCommand> = w
        .commands
        .iter()
        .filter(|c| matches!(c, PhysicsCommand::ApplyImpulse { actor, .. } if *actor == e))
        .collect();
    assert_eq!(yanks.len(), 1, "exactly one yank on the enemy");
    assert_eq!(
        *yanks[0],
        PhysicsCommand::ApplyImpulse {
            actor: e,
            impulse: Vec2 { x: -DEFAULT_GRAPPLE_PULL_IMPULSE, y: 0 },
        }
    );
}

#[test]
fn hook_attachment_is_terminal() {
    // Once attached, further resolution ticks never change the target,
    // whatever new contacts appear.
    let mut w = world();
    let p = w.spawn_actor(Vec2 { x: 0, y: 0 }, false, true, false, false, None);
    let ground = w.spawn_actor(Vec2 { x: 100, y: 0 }, false, false, false, true, None);
    let e = w.spawn_actor(Vec2 { x: 200, y: 0 }, false, false, true, true, None);
    let hook = w.start_grapple(p, Vec2 { x: 100, y: 0 }).expect("grapple should start");
    w.on_touch_start(hook, ground);
    w.attach_hooks();
    assert_eq!(
        actor_by_id(&w, hook).hook.as_ref().unwrap().attached_to,
        HookAttachment::AttachedWorld
    );
    // a hostile shows up afterwards; the attachment must not move
    w.on_touch_start(hook, e);
    w.attach_hooks();
    w.attach_hooks();
    assert_eq!(
        actor_by_id(&w, hook).hook.as_ref().unwrap().attached_to,
        HookAttachment::AttachedWorld
    );
    let attach_notifications = w
        .notifications
        .iter()
        .filter(|n| matches!(n, Notification::GrappleAttached { .. }))
        .count();
    assert_eq!(attach_notifications, 1, "exactly one attachment notification");
}

#[test]
fn enemy_contact_wins_over_world_contact() {
    let mut w = world();
    let p = w.spawn_actor(Vec2 { x: 0, y: 0 }, false, true, false, false, None);
    let ground = w.spawn_actor(Vec2 { x: 100, y: 0 }, false, false, false, true, None);
    let e = w.spawn_actor(Vec2 { x: 100, y: 10 }, false, false, true, true, None);
    let hook = w.start_grapple(p, Vec2 { x: 100, y: 0 }).expect("grapple should start");
    w.on_touch_start(hook, ground);
    w.on_touch_start(hook, e);
    w.attach_hooks();
    assert_eq!(
        actor_by_id(&w, hook).hook.as_ref().unwrap().attached_to,
        HookAttachment::AttachedEnemy(e)
    );
    assert!(w.is_pulling(p));
}

#[test]
fn hook_ignores_its_own_shooter() {
    let mut w = world();
    let p = w.spawn_actor(Vec2 { x: 0, y: 0 }, false, true, false, false, None);
    let hook = w.start_grapple(p, Vec2 { x: 10, y: 0 }).expect("grapple should start");
    w.on_touch_start(hook, p);
    w.attach_hooks();
    assert_eq!(
        actor_by_id(&w, hook).hook.as_ref().unwrap().attached_to,
        HookAttachment::Unattached
    );
    assert!(!w.is_swinging(p));
}

#[test]
fn unattached_hook_with_no_contact_stays_in_flight() {
    let mut w = world();
    let p = w.spawn_actor(Vec2 { x: 0, y: 0 }, false, true, false, false, None);
    let hook = w.start_grapple(p, Vec2 { x: 10, y: 0 }).expect("grapple should start");
    w.attach_hooks();
    assert_eq!(
        actor_by_id(&w, hook).hook.as_ref().unwrap().attached_to,
        HookAttachment::Unattached
    );
    assert!(w.notifications.is_empty());
}

#[test]
fn second_grapple_while_flowing_is_ignored() {
    let mut w = world();
    let p = w.spawn_actor(Vec2 { x: 0, y: 0 }, false, true, false, false, None);
    let first = w.start_grapple(p, Vec2 { x: 10, y: 0 });
    assert!(first.is_some());
    let second = w.start_grapple(p, Vec2 { x: 20, y: 0 });
    assert!(second.is_none(), "a shooter already in a grapple flow ignores the intent");
}

#[test]
fn grapple_without_capability_is_ignored() {
    let mut w = world();
    let p = w.spawn_actor(Vec2 { x: 0, y: 0 }, true, false, false, false, None);
    assert!(w.start_grapple(p, Vec2 { x: 10, y: 0 }).is_none());
    assert_eq!(w.actors.len(), 1);
}

#[test]
fn attachment_dropped_when_shooter_vanished() {
    // The hook resolves while its shooter is gone: the attachment is
    // recorded and notified, but no swing or pull record is created.
    let mut w = world();
    let p = w.spawn_actor(Vec2 { x: 0, y: 0 }, false, true, false, false, None);
    let ground = w.spawn_actor(Vec2 { x: 100, y: 0 }, false, false, false, true, None);
    let hook = w.start_grapple(p, Vec2 { x: 100, y: 0 }).expect("grapple should start");
    w.despawn_actor(p);
    w.on_touch_start(hook, ground);
    w.attach_hooks();
    assert_eq!(
        actor_by_id(&w, hook).hook.as_ref().unwrap().attached_to,
        HookAttachment::AttachedWorld
    );
    assert_eq!(w.notifications.len(), 1);
}

#[test]
fn pull_release_with_vanished_enemy_skips_impulse() {
    let mut w = world();
    let p = w.spawn_actor(Vec2 { x: 0, y: 0 }, false, true, false, false, None);
    let e = w.spawn_actor(Vec2 { x: 300, y: 0 }, false, false, true, true, None);
    let hook = w.start_grapple(p, Vec2 { x: 300, y: 0 }).expect("grapple should start");
    w.on_touch_start(hook, e);
    w.attach_hooks();
    assert!(w.is_pulling(p));
    w.despawn_actor(e);
    w.end_grapple(p);
    assert!(!w.is_pulling(p));
    assert!(!has_actor_id(&w, hook));
    let yanks = w
        .commands
        .iter()
        .filter(|c| matches!(c, PhysicsCommand::ApplyImpulse { .. }))
        .count();
    assert_eq!(yanks, 0, "a vanished enemy body is skipped, no crash");
}

#[test]
fn end_grapple_when_idle_is_noop() {
    let mut w = world();
    let p = w.spawn_actor(Vec2 { x: 0, y: 0 }, false, true, false, false, None);
    w.end_grapple(p);
    assert!(w.commands.is_empty());
    assert_eq!(w.actors.len(), 1);
}

#[test]
fn swing_spring_impulse_exact_value() {
    // Anchor (500, 0), shooter at the origin: rest length 500. Moved to
    // (900, 0) the rope is 100 short of rest (d = 400), so the spring
    // pushes away from the anchor: 100 * 100_000 * 10ms / 1000 =
    // 100_000, along +x.
    let mut w = world();
    let p = w.spawn_actor(Vec2 { x: 0, y: 0 }, false, true, false, false, None);
    let ground = w.spawn_actor(Vec2 { x: 500, y: 0 }, false, false, false, true, None);
    let hook = w.start_grapple(p, Vec2 { x: 500, y: 0 }).expect("grapple should start");
    w.on_touch_start(hook, ground);
    w.attach_hooks();
    w.set_physics_state(p, Vec2 { x: 900, y: 0 }, Vec2 { x: 0, y: 0 });
    let commands_before = w.commands.len();
    w.swing_system(10);
    assert_eq!(w.commands.len(), commands_before + 2);
    assert_eq!(
        w.commands[commands_before],
        PhysicsCommand::ApplyImpulse { actor: p, impulse: Vec2 { x: 100_000, y: 0 } }
    );
    // first tick: no previous distance, no damping impulse
    assert_eq!(
        w.commands[commands_before + 1],
        PhysicsCommand::ApplyImpulse { actor: p, impulse: Vec2 { x: 0, y: 0 } }
    );
    match &actor_by_id(&w, p).grapple {
        GrappleFlow::Swinging(sw) => {
            assert_eq!(sw.previous_distance_from_hook, Some(400));
        }
        other => panic!("expected a swing, found {:?}", other),
    }
}

#[test]
fn swing_damping_opposes_radial_motion() {
    // With a previous distance of 400 recorded and the shooter now at
    // distance 500 (receding), the damper pulls toward the anchor:
    // 100 * 1_000_000 * 10ms / 1000 = 1_000_000, along -x from (1000,0)
    // toward (500,0).
    let mut w = world();
    let p = w.spawn_actor(Vec2 { x: 0, y: 0 }, false, true, false, false, None);
    let ground = w.spawn_actor(Vec2 { x: 500, y: 0 }, false, false, false, true, None);
    let hook = w.start_grapple(p, Vec2 { x: 500, y: 0 }).expect("grapple should start");
    w.on_touch_start(hook, ground);
    w.attach_hooks();
    w.set_physics_state(p, Vec2 { x: 900, y: 0 }, Vec2 { x: 0, y: 0 });
    w.swing_system(10);
    w.set_physics_state(p, Vec2 { x: 1000, y: 0 }, Vec2 { x: 0, y: 0 });
    let commands_before = w.commands.len();
    w.swing_system(10);
    // spring: discomfort 0 at distance 500 == rest length, no impulse
    assert_eq!(
        w.commands[commands_before],
        PhysicsCommand::ApplyImpulse { actor: p, impulse: Vec2 { x: 0, y: 0 } }
    );
    assert_eq!(
        w.commands[commands_before + 1],
        PhysicsCommand::ApplyImpulse { actor: p, impulse: Vec2 { x: -1_000_000, y: 0 } }
    );
}

#[test]
fn hook_follows_attached_enemy() {
    let mut w = world();
    let p = w.spawn_actor(Vec2 { x: 0, y: 0 }, false, true, false, false, None);
    let e = w.spawn_actor(Vec2 { x: 300, y: 0 }, false, false, true, true, None);
    let hook = w.start_grapple(p, Vec2 { x: 300, y: 0 }).expect("grapple should start");
    w.on_touch_start(hook, e);
    w.attach_hooks();
    w.set_physics_state(e, Vec2 { x: 350, y: 40 }, Vec2 { x: 0, y: 0 });
    w.follow_enemy();
    assert_eq!(actor_by_id(&w, hook).pos, Vec2 { x: 350, y: 40 });
    assert!(w.commands.contains(&PhysicsCommand::SetPosition {
        actor: hook,
        position: Vec2 { x: 350, y: 40 },
    }));
}

#[test]
fn swing_energy_decays_under_damping() {
    // A damped spring released from a non-zero stretch: integrating the
    // emitted impulses with a fixed mass, the peak |stretch| reached at
    // each velocity turn-around never increases, and the swing settles
    // at its rest length.
    // a lightly damped tuning keeps the spring oscillating for a while
    let mut w = World::new(GrapplingHookConfig {
        spring_force: 100_000,
        spring_dampening: 200_000,
        pull_impulse: 100_000,
    });
    let p = w.spawn_actor(Vec2 { x: 500, y: 0 }, false, true, false, false, None);
    let ground = w.spawn_actor(Vec2 { x: 0, y: 0 }, false, false, false, true, None);
    let hook = w.start_grapple(p, Vec2 { x: 0, y: 0 }).expect("grapple should start");
    w.on_touch_start(hook, ground);
    w.attach_hooks();
    match &actor_by_id(&w, p).grapple {
        GrappleFlow::Swinging(sw) => assert_eq!(sw.rope_rest_length, 500),
        other => panic!("expected a swing, found {:?}", other),
    }
    // release from x = 900: stretch 400
    let mass: i64 = 800;
    let dt: u64 = 10;
    let mut x: i64 = 900;
    let mut v: i64 = 0;
    w.set_physics_state(p, Vec2 { x, y: 0 }, Vec2 { x: v, y: 0 });
    let mut peaks: Vec<i64> = Vec::new();
    let mut last_sign: i64 = 0;
    for _ in 0..2000 {
        let before = w.commands.len();
        w.swing_system(dt);
        assert_eq!(w.commands.len(), before + 2);
        let mut impulse_x: i64 = 0;
        for c in &w.commands[before..] {
            match c {
                PhysicsCommand::ApplyImpulse { actor, impulse } => {
                    assert_eq!(*actor, p);
                    impulse_x += impulse.x;
                }
                other => panic!("unexpected command {:?}", other),
            }
        }
        v += impulse_x / mass;
        x += v * (dt as i64) / 1000;
        let sign = v.signum();
        if last_sign != 0 && sign != 0 && sign != last_sign {
            peaks.push((x.abs() - 500).abs());
        }
        if sign != 0 {
            last_sign = sign;
        }
        w.set_physics_state(p, Vec2 { x, y: 0 }, Vec2 { x: v, y: 0 });
    }
    assert!(peaks.len() >= 3, "the spring must oscillate a few times");
    for pair in peaks.windows(2) {
        assert!(pair[1] <= pair[0], "amplitude must never grow: {:?}", peaks);
    }
    assert!((x - 500).abs() <= 5, "the swing settles near its rest length, ended at {x}");
}
