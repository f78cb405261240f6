use wave_guy::actions::Actions;
use wave_guy::collision::{Collider, CollisionLayer, HitBox};
use wave_guy::enemy::make_enemy;
use wave_guy::gravity::GravitySource;
use wave_guy::map::MapBoundary;
use wave_guy::math::Vec2;
use wave_guy::movement::{Acceleration, Force, Mass, PhysicsBundle, Velocity};
use wave_guy::player::{spawn_player, Bullet};
use wave_guy::simulation::step;
use wave_guy::world::{Entity, EntityId, PhysicsError, Transform, World};

fn world(radius: i32) -> World {
    World::new(MapBoundary { center: Vec2::new(0, 0), radius }).unwrap()
}

fn body(x: i32, y: i32, mass: i32) -> Entity {
    Entity::new(Transform::from_translation(Vec2::new(x, y))).with_physics(PhysicsBundle {
        mass: Mass(mass),
        ..PhysicsBundle::default()
    })
}

fn moving(intent: (i32, i32)) -> Actions {
    Actions { player_movement: Some(Vec2::new(intent.0, intent.1)), ..Actions::default() }
}

#[test]
fn a_step_turns_intent_into_force_acceleration_velocity_and_position() {
    let mut w = world(3_000_000);
    let p = spawn_player(&mut w);
    assert_eq!(step(&mut w, &moving((1000, 0)), 16), Ok(()));
    let e = w.get(p).unwrap();
    assert_eq!(e.force, Some(Force(Vec2::new(100, 0))));
    assert_eq!(e.acceleration, Some(Acceleration(Vec2::new(10, 0))));
    assert_eq!(e.velocity, Some(Velocity(Vec2::new(160, 0))));
    assert_eq!(e.transform.translation, Vec2::new(2560, 0));
    assert!(matches!(
        e.collider.unwrap().hit_box,
        HitBox::Aabb(b) if b.center == Vec2::new(2560, 0) && b.half_size == Vec2::new(75_000, 125_000)
    ));
}

#[test]
fn force_does_not_carry_over_but_velocity_does() {
    let mut w = world(3_000_000);
    let p = spawn_player(&mut w);
    step(&mut w, &moving((0, -1000)), 10).unwrap();
    step(&mut w, &Actions::default(), 10).unwrap();
    let e = w.get(p).unwrap();
    assert_eq!(e.force, Some(Force(Vec2::new(0, 0))));
    assert_eq!(e.acceleration, Some(Acceleration(Vec2::new(0, 0))));
    assert_eq!(e.velocity, Some(Velocity(Vec2::new(0, -100))));
    assert_eq!(e.transform.translation, Vec2::new(0, -2000));
    step(&mut w, &moving((0, -1000)), 10).unwrap();
    let e = w.get(p).unwrap();
    assert_eq!(e.force, Some(Force(Vec2::new(0, -100))));
    assert_eq!(e.velocity, Some(Velocity(Vec2::new(0, -200))));
    assert_eq!(e.transform.translation, Vec2::new(0, -4000));
}

#[test]
fn gravity_and_intent_add_up_before_acceleration_is_derived() {
    let mut w = world(3_000_000);
    let mut well = Entity::new(Transform::from_translation(Vec2::new(-100, 0)));
    well.gravity_source = Some(GravitySource { max_range: 1000 });
    well.mass = Some(Mass(200_000));
    w.spawn(well).unwrap();
    let p = spawn_player(&mut w);
    assert_eq!(step(&mut w, &moving((1000, 0)), 1), Ok(()));
    let e = w.get(p).unwrap();
    assert_eq!(e.force, Some(Force(Vec2::new(-200 + 100, 0))));
    assert_eq!(e.acceleration, Some(Acceleration(Vec2::new(-10, 0))));
    assert_eq!(e.velocity, Some(Velocity(Vec2::new(-10, 0))));
    assert_eq!(e.transform.translation, Vec2::new(-10, 0));
    assert_eq!(w.get(EntityId(0)), Some(well));
}

#[test]
fn acceleration_is_force_over_mass_after_every_step() {
    let mut w = world(3_000_000);
    let mut well = Entity::new(Transform::from_translation(Vec2::new(-300, 400)));
    well.gravity_source = Some(GravitySource { max_range: 100_000 });
    well.mass = Some(Mass(7_000_000));
    w.spawn(well).unwrap();
    spawn_player(&mut w);
    w.spawn(body(500, 500, 3)).unwrap();
    w.spawn(body(-900, 20, 7)).unwrap();
    for i in 0..50 {
        let intent = if i % 2 == 0 { moving((600, 800)) } else { Actions::default() };
        step(&mut w, &intent, 3).unwrap();
        for slot in w.slots().iter().flatten() {
            if let (Some(a), Some(f), Some(m)) = (slot.acceleration, slot.force, slot.mass) {
                assert_eq!(a.0, Vec2::new(f.0.x / m.0, f.0.y / m.0));
            }
        }
    }
}

#[test]
fn collisions_are_found_after_the_move_and_answered_in_the_same_step() {
    let mut w = world(3_000_000);
    let mut shot = body(0, 0, 10).with_collider(Collider::new_circle(
        CollisionLayer::PlayerProjectile,
        10_000,
    ));
    shot.velocity = Some(Velocity(Vec2::new(1000, 0)));
    shot.bullet = Some(Bullet { owner: EntityId(9), damage: 1 });
    let shot = w.spawn(shot).unwrap();
    let foe = w.spawn(make_enemy(Vec2::new(60_000, 0), Vec2::new(20_000, 20_000))).unwrap();
    step(&mut w, &Actions::default(), 16).unwrap();
    assert!(w.contains(shot) && w.contains(foe));
    assert_eq!(w.get(shot).unwrap().transform.translation, Vec2::new(16_000, 0));
    step(&mut w, &Actions::default(), 16).unwrap();
    assert!(!w.contains(shot) && !w.contains(foe));
}

#[test]
fn the_boundary_has_the_last_word_on_position() {
    let mut w = world(10_000);
    let mut e = body(9_990, 0, 10);
    e.velocity = Some(Velocity(Vec2::new(100, 0)));
    let straight = w.spawn(e).unwrap();
    e.velocity = Some(Velocity(Vec2::new(100, 7)));
    let slanted = w.spawn(e).unwrap();
    step(&mut w, &Actions::default(), 1).unwrap();
    let after = w.get(straight).unwrap();
    assert_eq!(after.transform.translation, Vec2::new(9000, 0));
    assert_eq!(after.velocity, Some(Velocity(Vec2::new(-100, 0))));
    let after = w.get(slanted).unwrap();
    assert_eq!(after.transform.translation, Vec2::new(8999, 6));
    assert_eq!(after.velocity, Some(Velocity(Vec2::new(-100, 6))));
}

#[test]
fn firing_comes_last_and_the_shot_is_untouched_by_the_step() {
    let mut w = world(3_000_000);
    let p = spawn_player(&mut w);
    let aim = Actions { shoot: Some(Vec2::new(0, 50_000)), ..Actions::default() };
    step(&mut w, &aim, 49).unwrap();
    assert_eq!(w.len(), 1);
    step(&mut w, &aim, 1).unwrap();
    assert_eq!(w.len(), 2);
    let b = w.get(EntityId(1)).unwrap();
    assert_eq!(b.transform.translation, Vec2::new(0, 0));
    assert_eq!(b.velocity, Some(Velocity(Vec2::new(0, 1000))));
    assert_eq!(b.life_span.unwrap().timer.elapsed_ms, 0);
    assert_eq!(b.bullet.unwrap().owner, p);
    step(&mut w, &Actions::default(), 10).unwrap();
    let b = w.get(EntityId(1)).unwrap();
    assert_eq!(b.transform.translation, Vec2::new(0, 10_000));
    assert_eq!(b.life_span.unwrap().timer.elapsed_ms, 10);
    step(&mut w, &Actions::default(), 990).unwrap();
    assert!(!w.contains(EntityId(1)));
    assert!(w.contains(p));
}

#[test]
fn a_step_that_cannot_be_taken_changes_nothing() {
    let mut w = world(3_000_000);
    let p = spawn_player(&mut w);
    let mut edge = body(i32::MAX - 10, 0, 10);
    edge.velocity = Some(Velocity(Vec2::new(100, 0)));
    edge.force = Some(Force(Vec2::new(5, 5)));
    let id = w.spawn(edge).unwrap();
    let before = w.get(p).unwrap();
    assert_eq!(step(&mut w, &moving((1000, 0)), 1), Err(PhysicsError::Overflow));
    assert_eq!(w.get(p).unwrap(), before);
    assert_eq!(w.get(id).unwrap(), edge);
    assert_eq!(w.len(), 2);
    w.despawn(id);
    assert_eq!(step(&mut w, &moving((1000, 0)), 1), Ok(()));
    assert_eq!(w.get(p).unwrap().velocity, Some(Velocity(Vec2::new(10, 0))));
}

#[test]
fn a_step_of_no_time_moves_nothing() {
    let mut w = world(3_000_000);
    let mut e = body(5, 5, 10);
    e.velocity = Some(Velocity(Vec2::new(100, 100)));
    let id = w.spawn(e).unwrap();
    step(&mut w, &Actions::default(), 0).unwrap();
    let after = w.get(id).unwrap();
    assert_eq!(after.transform, e.transform);
    assert_eq!(after.velocity, e.velocity);
}

#[test]
fn an_empty_world_steps() {
    let mut w = world(3_000_000);
    assert_eq!(step(&mut w, &moving((1000, 0)), 16), Ok(()));
    assert_eq!(w.len(), 0);
}
