use wave_guy::map::MapBoundary;
use wave_guy::math::Vec2;
use wave_guy::movement::{
    acceleration_update, advance, apply_input_velocity, derive_acceleration, divide,
    integrate_position, integrate_velocity, position_update, reset_force, steer, velocity_update,
    Acceleration, Force, Mass, PhysicsBundle, Velocity, BASE_PLAYER_FORCE,
};
use wave_guy::player::Player;
use wave_guy::world::{Entity, PhysicsError, Transform, World};

fn world() -> World {
    World::new(MapBoundary { center: Vec2::new(0, 0), radius: 3_000_000 }).unwrap()
}

fn body(force: (i32, i32), mass: i32, velocity: (i32, i32)) -> Entity {
    Entity::new(Transform::from_translation(Vec2::new(0, 0))).with_physics(PhysicsBundle {
        force: Force(Vec2::new(force.0, force.1)),
        mass: Mass(mass),
        acceleration: Acceleration(Vec2::new(99, 99)),
        velocity: Velocity(Vec2::new(velocity.0, velocity.1)),
    })
}

#[test]
fn default_bundle_is_at_rest_with_mass_one_hundred() {
    let b = PhysicsBundle::default();
    assert_eq!(b.force, Force(Vec2::new(0, 0)));
    assert_eq!(b.mass, Mass(100));
    assert_eq!(b.acceleration, Acceleration(Vec2::new(0, 0)));
    assert_eq!(b.velocity, Velocity(Vec2::new(0, 0)));
    assert_eq!(Velocity::default(), Velocity(Vec2::new(0, 0)));
    assert_eq!(Acceleration::default(), Acceleration(Vec2::new(0, 0)));
    assert_eq!(Force::default(), Force(Vec2::new(0, 0)));
}

#[test]
fn quotient_rounds_each_component_toward_zero() {
    assert_eq!(divide(Vec2::new(100, -100), 10), Vec2::new(10, -10));
    assert_eq!(divide(Vec2::new(7, -7), 2), Vec2::new(3, -3));
    assert_eq!(divide(Vec2::new(i32::MIN, i32::MAX), 1), Vec2::new(i32::MIN, i32::MAX));
    assert_eq!(divide(Vec2::new(5, -5), 6), Vec2::new(0, 0));
}

#[test]
fn acceleration_is_force_over_mass_and_forgets_what_it_was() {
    let e = derive_acceleration(body((300, -45), 10, (0, 0)));
    assert_eq!(e.acceleration, Some(Acceleration(Vec2::new(30, -4))));
    assert_eq!(e.force, Some(Force(Vec2::new(300, -45))));
    let again = derive_acceleration(e);
    assert_eq!(again, e);
}

#[test]
fn acceleration_needs_force_mass_and_acceleration() {
    let mut e = body((300, 0), 10, (0, 0));
    e.force = None;
    assert_eq!(derive_acceleration(e), e);
    let mut e = body((300, 0), 10, (0, 0));
    e.mass = None;
    assert_eq!(derive_acceleration(e), e);
    let mut e = body((300, 0), 10, (0, 0));
    e.acceleration = None;
    assert_eq!(derive_acceleration(e), e);
}

#[test]
fn acceleration_update_covers_every_entity() {
    let mut w = world();
    let a = w.spawn(body((100, 0), 10, (0, 0))).unwrap();
    let b = w.spawn(body((0, -9), 2, (0, 0))).unwrap();
    let gone = w.spawn(body((1, 1), 1, (0, 0))).unwrap();
    w.despawn(gone);
    acceleration_update(&mut w);
    assert_eq!(w.get(a).unwrap().acceleration, Some(Acceleration(Vec2::new(10, 0))));
    assert_eq!(w.get(b).unwrap().acceleration, Some(Acceleration(Vec2::new(0, -4))));
    assert_eq!(w.get(gone), None);
}

#[test]
fn advance_adds_rate_times_time() {
    assert_eq!(advance(Vec2::new(1, 2), Vec2::new(10, -20), 16), Some(Vec2::new(161, -318)));
    assert_eq!(advance(Vec2::new(1, 2), Vec2::new(10, -20), 0), Some(Vec2::new(1, 2)));
    assert_eq!(advance(Vec2::new(i32::MAX, 0), Vec2::new(1, 0), 1), None);
    assert_eq!(advance(Vec2::new(0, i32::MIN), Vec2::new(0, -1), 1), None);
    assert_eq!(
        advance(Vec2::new(i32::MIN, 0), Vec2::new(1, 0), u32::MAX),
        Some(Vec2::new(i32::MAX, 0))
    );
    assert_eq!(advance(Vec2::new(0, 0), Vec2::new(i32::MIN, 0), u32::MAX), None);
}

#[test]
fn velocity_gains_acceleration_times_time() {
    let mut e = body((0, 0), 10, (5, 5));
    e.acceleration = Some(Acceleration(Vec2::new(3, -2)));
    let r = integrate_velocity(e, 16).unwrap();
    assert_eq!(r.velocity, Some(Velocity(Vec2::new(53, -27))));
    assert_eq!(r.transform, e.transform);
    let mut still = e;
    still.acceleration = None;
    assert_eq!(integrate_velocity(still, 16), Some(still));
}

#[test]
fn position_gains_velocity_times_time() {
    let e = body((0, 0), 10, (100, -50));
    let r = integrate_position(e, 16).unwrap();
    assert_eq!(r.transform.translation, Vec2::new(1600, -800));
    assert_eq!(r.velocity, e.velocity);
    let mut fixed = e;
    fixed.velocity = None;
    assert_eq!(integrate_position(fixed, 16), Some(fixed));
}

#[test]
fn velocity_update_fails_as_a_whole_on_overflow() {
    let mut w = world();
    let mut fine = body((0, 0), 10, (1, 1));
    fine.acceleration = Some(Acceleration(Vec2::new(1, 1)));
    let mut fast = body((0, 0), 10, (i32::MAX, 0));
    fast.acceleration = Some(Acceleration(Vec2::new(1, 0)));
    let a = w.spawn(fine).unwrap();
    let b = w.spawn(fast).unwrap();
    assert_eq!(velocity_update(&mut w, 1), Err(PhysicsError::Overflow));
    assert_eq!(w.get(a).unwrap(), fine);
    assert_eq!(w.get(b).unwrap(), fast);
    assert_eq!(velocity_update(&mut w, 0), Ok(()));
    assert_eq!(w.get(a).unwrap(), fine);
}

#[test]
fn position_update_moves_every_entity_with_a_velocity() {
    let mut w = world();
    let a = w.spawn(body((0, 0), 10, (100, 0))).unwrap();
    let b = w.spawn(Entity::new(Transform::from_translation(Vec2::new(5, 5)))).unwrap();
    assert_eq!(position_update(&mut w, 10), Ok(()));
    assert_eq!(w.get(a).unwrap().transform.translation, Vec2::new(1000, 0));
    assert_eq!(w.get(b).unwrap().transform.translation, Vec2::new(5, 5));
    let edge = w.spawn({
        let mut e = body((0, 0), 10, (0, 1));
        e.transform.translation = Vec2::new(0, i32::MAX);
        e
    });
    assert!(edge.is_ok());
    assert_eq!(position_update(&mut w, 1), Err(PhysicsError::Overflow));
    assert_eq!(w.get(a).unwrap().transform.translation, Vec2::new(1000, 0));
}

#[test]
fn reset_sets_the_force_to_zero() {
    let e = reset_force(body((7, 8), 10, (1, 1)));
    assert_eq!(e.force, Some(Force(Vec2::new(0, 0))));
    let bare = Entity::new(Transform::from_translation(Vec2::new(0, 0)));
    assert_eq!(reset_force(bare), bare);
}

#[test]
fn intent_adds_its_force_to_the_player_only() {
    assert_eq!(BASE_PLAYER_FORCE, 100);
    let mut p = body((5, 5), 10, (0, 0));
    p.player = Some(Player);
    let r = steer(p, Some(Vec2::new(600, -800))).unwrap();
    assert_eq!(r.force, Some(Force(Vec2::new(65, -75))));
    assert_eq!(steer(p, None), Some(p));
    let other = body((5, 5), 10, (0, 0));
    assert_eq!(steer(other, Some(Vec2::new(1000, 0))), Some(other));
    let mut full = p;
    full.force = Some(Force(Vec2::new(i32::MAX, 0)));
    assert_eq!(steer(full, Some(Vec2::new(1000, 0))), None);
}

#[test]
fn intent_composes_with_the_force_that_is_there() {
    let mut w = world();
    let mut p = body((0, -30), 10, (0, 0));
    p.player = Some(Player);
    let id = w.spawn(p).unwrap();
    assert_eq!(apply_input_velocity(&mut w, Some(Vec2::new(0, 1000))), Ok(()));
    assert_eq!(w.get(id).unwrap().force, Some(Force(Vec2::new(0, 70))));
    assert_eq!(apply_input_velocity(&mut w, None), Ok(()));
    assert_eq!(w.get(id).unwrap().force, Some(Force(Vec2::new(0, 70))));
}
