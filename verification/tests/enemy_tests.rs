use wave_guy::clock::{Timer, TimerMode};
use wave_guy::collision::{Collider, CollisionLayer};
use wave_guy::enemy::{
    chase, find_player, make_enemy, move_enemy, setup, spawn_enemy, Enemy, Spawner, ENEMY_MASS,
    ENEMY_SPEED, SPAWN_PERIOD_MS,
};
use wave_guy::map::{MapBoundary, MAP_RADIUS};
use wave_guy::math::Vec2;
use wave_guy::movement::{Mass, Velocity};
use wave_guy::player::{spawn_player, Player};
use wave_guy::world::{Entity, EntityId, PhysicsError, Transform, World};

fn world() -> World {
    World::new(MapBoundary { center: Vec2::new(0, 0), radius: MAP_RADIUS }).unwrap()
}

#[test]
fn spawner_repeats_every_period() {
    let s = Spawner::new(300);
    assert_eq!(s.timer, Timer::new(300, TimerMode::Repeating));
    assert_eq!(setup().timer, Timer::new(SPAWN_PERIOD_MS, TimerMode::Repeating));
    assert_eq!(SPAWN_PERIOD_MS, 5000);
}

#[test]
fn enemy_has_its_box_mass_and_layer() {
    let e = make_enemy(Vec2::new(7, 8), Vec2::new(30, 40));
    assert_eq!(e.transform.translation, Vec2::new(7, 8));
    assert_eq!(e.transform.scale, Vec2::new(1000, 1000));
    assert_eq!(e.transform.z, 26);
    assert_eq!(e.enemy, Some(Enemy));
    assert_eq!(e.mass, Some(Mass(ENEMY_MASS)));
    assert_eq!(e.velocity, Some(Velocity(Vec2::new(0, 0))));
    assert_eq!(
        e.collider,
        Some(Collider::new_aabb(CollisionLayer::Enemy, Vec2::new(30, 40)))
    );
    assert_eq!(e.player, None);
    assert_eq!(e.bullet, None);
}

#[test]
fn enemies_appear_when_the_spawner_finishes() {
    let mut w = world();
    let mut s = Spawner::new(5000);
    let half = Vec2::new(30_000, 40_000);
    assert_eq!(spawn_enemy(&mut w, &mut s, 4999, half), Ok(None));
    assert_eq!(w.len(), 0);
    assert_eq!(spawn_enemy(&mut w, &mut s, 1, half), Ok(Some(EntityId(0))));
    assert_eq!(w.len(), 1);
    assert_eq!(s.timer.elapsed_ms, 0);
    assert_eq!(spawn_enemy(&mut w, &mut s, 100, half), Ok(None));
    assert_eq!(spawn_enemy(&mut w, &mut s, 4900, half), Ok(Some(EntityId(1))));
    assert_eq!(w.len(), 2);
}

#[test]
fn enemies_appear_inside_the_spawn_area() {
    let mut w = world();
    let mut s = Spawner::new(1);
    let half = Vec2::new(30_000, 40_000);
    for i in 0..200 {
        assert_eq!(spawn_enemy(&mut w, &mut s, 1, half), Ok(Some(EntityId(i))));
        let e = w.get(EntityId(i)).unwrap();
        let p = e.transform.translation;
        assert!(-MAP_RADIUS <= p.x && p.x < MAP_RADIUS);
        assert!(-MAP_RADIUS <= p.y && p.y < MAP_RADIUS);
        assert_eq!(e, make_enemy(p, half));
    }
    let first = w.get(EntityId(0)).unwrap().transform.translation;
    assert!((1..200).any(|i| w.get(EntityId(i)).unwrap().transform.translation != first));
}

#[test]
fn enemy_with_a_negative_size_is_refused() {
    let mut w = world();
    let mut s = Spawner::new(10);
    let r = spawn_enemy(&mut w, &mut s, 10, Vec2::new(-1, 5));
    assert_eq!(r, Err(PhysicsError::MalformedSize));
    assert_eq!(w.len(), 0);
    assert_eq!(spawn_enemy(&mut w, &mut s, 3, Vec2::new(-1, 5)), Ok(None));
}

#[test]
fn enemies_move_toward_the_player() {
    assert_eq!(ENEMY_SPEED, 100);
    let mut w = world();
    let foe = w.spawn(make_enemy(Vec2::new(3000, 4000), Vec2::new(1, 1))).unwrap();
    let player = spawn_player(&mut w);
    let other = w.spawn(Entity::new(Transform::from_translation(Vec2::new(9, 9)))).unwrap();
    assert_eq!(find_player(&w), Some(Vec2::new(0, 0)));
    assert_eq!(move_enemy(&mut w, 10), Ok(()));
    assert_eq!(w.get(foe).unwrap().transform.translation, Vec2::new(2400, 3200));
    assert_eq!(w.get(player).unwrap().transform.translation, Vec2::new(0, 0));
    assert_eq!(w.get(other).unwrap().transform.translation, Vec2::new(9, 9));
}

#[test]
fn enemy_at_the_player_stays() {
    let at = make_enemy(Vec2::new(5, 5), Vec2::new(1, 1));
    assert_eq!(chase(at, Vec2::new(5, 5), 1000), Some(at));
    let near = make_enemy(Vec2::new(5, 6), Vec2::new(1, 1));
    assert_eq!(
        chase(near, Vec2::new(5, 5), 1).unwrap().transform.translation,
        Vec2::new(5, -94)
    );
}

#[test]
fn without_a_player_nothing_moves() {
    let mut w = world();
    let foe = w.spawn(make_enemy(Vec2::new(3000, 4000), Vec2::new(1, 1))).unwrap();
    assert_eq!(find_player(&w), None);
    assert_eq!(move_enemy(&mut w, 10), Ok(()));
    assert_eq!(w.get(foe).unwrap().transform.translation, Vec2::new(3000, 4000));
}

#[test]
fn the_player_is_the_first_that_is_no_enemy() {
    let mut w = world();
    let mut turncoat = make_enemy(Vec2::new(1, 1), Vec2::new(1, 1));
    turncoat.player = Some(Player);
    w.spawn(turncoat).unwrap();
    let mut second = Entity::new(Transform::from_translation(Vec2::new(2, 2)));
    second.player = Some(Player);
    let mut third = Entity::new(Transform::from_translation(Vec2::new(3, 3)));
    third.player = Some(Player);
    let gone = w.spawn(second).unwrap();
    w.spawn(third).unwrap();
    assert_eq!(find_player(&w), Some(Vec2::new(2, 2)));
    w.despawn(gone);
    assert_eq!(find_player(&w), Some(Vec2::new(3, 3)));
}

#[test]
fn chase_that_leaves_the_plane_fails() {
    let mut w = world();
    let foe = make_enemy(Vec2::new(i32::MIN, 0), Vec2::new(1, 1));
    let id = w.spawn(foe).unwrap();
    let mut far = Entity::new(Transform::from_translation(Vec2::new(i32::MAX, 0)));
    far.player = Some(Player);
    w.spawn(far).unwrap();
    assert_eq!(move_enemy(&mut w, 50_000_000), Err(PhysicsError::Overflow));
    assert_eq!(w.get(id), Some(foe));
    assert_eq!(move_enemy(&mut w, 10), Ok(()));
    assert_eq!(w.get(id).unwrap().transform.translation, Vec2::new(i32::MIN + 1000, 0));
}
