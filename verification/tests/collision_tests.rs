use wave_guy::collision::{
    detect_collisions, entities_collide, normal_from, refresh_collider, update_hitbox_positions,
    Aabb2d, BoundingCircle, Collider, CollisionLayer, HitBox,
};
use wave_guy::map::MapBoundary;
use wave_guy::math::Vec2;
use wave_guy::movement::{PhysicsBundle, Velocity};
use wave_guy::world::{Entity, EntityId, PhysicsError, Transform, World};

const LAYERS: [CollisionLayer; 4] = [
    CollisionLayer::Player,
    CollisionLayer::Enemy,
    CollisionLayer::PlayerProjectile,
    CollisionLayer::EnemyProjectile,
];

fn world() -> World {
    World::new(MapBoundary { center: Vec2::new(0, 0), radius: 3_000_000 }).unwrap()
}

fn circle(x: i32, y: i32, radius: i32) -> HitBox {
    HitBox::Circle(BoundingCircle { center: Vec2::new(x, y), radius })
}

fn aabb(x: i32, y: i32, hx: i32, hy: i32) -> HitBox {
    HitBox::Aabb(Aabb2d { center: Vec2::new(x, y), half_size: Vec2::new(hx, hy) })
}

fn mover(x: i32, y: i32, collider: Collider) -> Entity {
    Entity::new(Transform::from_translation(Vec2::new(x, y)))
        .with_physics(PhysicsBundle::default())
        .with_collider(collider)
}

#[test]
fn collision_table_is_symmetric() {
    for a in LAYERS {
        for b in LAYERS {
            assert_eq!(a.should_collide(&b), b.should_collide(&a));
        }
    }
}

#[test]
fn collision_table_holds_exactly_the_documented_pairs() {
    let player = CollisionLayer::Player;
    let foe = CollisionLayer::Enemy;
    let player_shot = CollisionLayer::PlayerProjectile;
    let foe_shot = CollisionLayer::EnemyProjectile;
    let listed = [
        (player_shot, foe),
        (foe, player_shot),
        (foe_shot, player),
        (player, foe_shot),
        (foe_shot, foe_shot),
    ];
    for a in LAYERS {
        for b in LAYERS {
            assert_eq!(a.should_collide(&b), listed.contains(&(a, b)));
        }
    }
    assert!(!player.should_collide(&foe));
    assert!(!player_shot.should_collide(&player_shot));
    assert!(!player.should_collide(&player));
    assert!(!player_shot.should_collide(&foe_shot));
}

#[test]
fn circles_meet_up_to_the_sum_of_their_radii() {
    assert!(circle(0, 0, 5).intersects(&circle(10, 0, 5)));
    assert!(!circle(0, 0, 5).intersects(&circle(11, 0, 5)));
    assert!(circle(0, 0, 5).intersects(&circle(6, 8, 5)));
    assert!(!circle(0, 0, 5).intersects(&circle(6, 9, 5)));
    assert!(circle(3, 3, 0).intersects(&circle(3, 3, 0)));
}

#[test]
fn boxes_meet_where_they_overlap_on_both_axes() {
    assert!(aabb(0, 0, 5, 5).intersects(&aabb(10, 0, 5, 5)));
    assert!(!aabb(0, 0, 5, 5).intersects(&aabb(11, 0, 5, 5)));
    assert!(!aabb(0, 0, 5, 5).intersects(&aabb(10, 11, 5, 5)));
    assert!(aabb(0, 0, 5, 5).intersects(&aabb(-10, -10, 5, 5)));
    assert!(aabb(0, 0, 50, 50).intersects(&aabb(1, 1, 2, 2)));
}

#[test]
fn circle_meets_box_by_the_closest_point() {
    assert!(!circle(0, 0, 5).intersects(&aabb(10, 10, 6, 6)));
    assert!(circle(0, 0, 5).intersects(&aabb(10, 10, 7, 7)));
    assert!(aabb(10, 10, 7, 7).intersects(&circle(0, 0, 5)));
    assert!(!aabb(10, 10, 6, 6).intersects(&circle(0, 0, 5)));
    assert!(circle(0, 0, 5).intersects(&aabb(10, 0, 5, 5)));
    assert!(!circle(0, 0, 5).intersects(&aabb(11, 0, 5, 5)));
    assert!(circle(1, 1, 1).intersects(&aabb(0, 0, 50, 50)));
}

#[test]
fn shapes_are_scaled_in_thousandths() {
    let c = Vec2::new(7, -7);
    assert_eq!(HitBox::new_circle(c, 1500, 10), Some(circle(7, -7, 15)));
    assert_eq!(HitBox::new_circle(c, 1000, 10), Some(circle(7, -7, 10)));
    assert_eq!(HitBox::new_circle(c, 333, 10), Some(circle(7, -7, 3)));
    assert_eq!(
        HitBox::new_aabb(c, Vec2::new(2000, 500), Vec2::new(10, 10)),
        Some(aabb(7, -7, 20, 5))
    );
    assert_eq!(HitBox::new_circle(c, i32::MAX, i32::MAX), None);
    assert_eq!(
        HitBox::new_aabb(c, Vec2::new(1000, i32::MAX), Vec2::new(1, 1_000_000)),
        None
    );
}

#[test]
fn new_colliders_sit_at_the_origin() {
    let b = Collider::new_aabb(CollisionLayer::Enemy, Vec2::new(3, 4));
    assert_eq!(b.layer, CollisionLayer::Enemy);
    assert_eq!(b.size, Vec2::new(3, 4));
    assert_eq!(b.hit_box, aabb(0, 0, 3, 4));
    let c = Collider::new_circle(CollisionLayer::Player, 9);
    assert_eq!(c.layer, CollisionLayer::Player);
    assert_eq!(c.size, Vec2::new(9, 9));
    assert_eq!(c.hit_box, circle(0, 0, 9));
}

#[test]
fn refresh_keeps_the_kind_of_shape_and_follows_the_transform() {
    let mut e = mover(100, 200, Collider::new_circle(CollisionLayer::Enemy, 10));
    e.transform.scale = Vec2::new(2000, 9000);
    let r = refresh_collider(e).unwrap();
    assert_eq!(r.collider.unwrap().hit_box, circle(100, 200, 20));
    assert_eq!(r.collider.unwrap().size, Vec2::new(10, 10));
    let mut b = mover(-5, 5, Collider::new_aabb(CollisionLayer::Enemy, Vec2::new(10, 20)));
    b.transform.scale = Vec2::new(2000, 500);
    let r = refresh_collider(b).unwrap();
    assert_eq!(r.collider.unwrap().hit_box, aabb(-5, 5, 20, 10));
    let bare = Entity::new(Transform::from_translation(Vec2::new(1, 1)));
    assert_eq!(refresh_collider(bare), Some(bare));
}

#[test]
fn refresh_of_the_world_fails_as_a_whole() {
    let mut w = world();
    let fine = w.spawn(mover(1, 2, Collider::new_circle(CollisionLayer::Enemy, 10))).unwrap();
    let mut huge = mover(0, 0, Collider::new_circle(CollisionLayer::Enemy, i32::MAX));
    huge.transform.scale = Vec2::new(2000, 2000);
    w.spawn(huge).unwrap();
    let before = w.get(fine).unwrap();
    assert_eq!(update_hitbox_positions(&mut w), Err(PhysicsError::Overflow));
    assert_eq!(w.get(fine).unwrap(), before);
}

#[test]
fn normal_points_from_the_first_to_the_second() {
    assert_eq!(normal_from(Vec2::new(0, 0), Vec2::new(50, 0)), Vec2::new(1000, 0));
    assert_eq!(normal_from(Vec2::new(0, 0), Vec2::new(0, -3)), Vec2::new(0, -1000));
    assert_eq!(normal_from(Vec2::new(10, 10), Vec2::new(40, 50)), Vec2::new(600, 800));
    assert_eq!(normal_from(Vec2::new(40, 50), Vec2::new(10, 10)), Vec2::new(-600, -800));
}

#[test]
fn normal_of_one_place_lies_along_the_first_axis() {
    assert_eq!(normal_from(Vec2::new(4, 4), Vec2::new(4, 4)), Vec2::new(1000, 0));
}

#[test]
fn entities_collide_only_with_collider_velocity_layer_and_contact() {
    let bullet = mover(0, 0, Collider::new_circle(CollisionLayer::PlayerProjectile, 10));
    let foe = mover(0, 0, Collider::new_circle(CollisionLayer::Enemy, 10));
    assert!(entities_collide(&bullet, &foe));
    assert!(entities_collide(&foe, &bullet));
    let mut still = foe;
    still.velocity = None;
    assert!(!entities_collide(&bullet, &still));
    let mut shapeless = foe;
    shapeless.collider = None;
    assert!(!entities_collide(&bullet, &shapeless));
    let friend = mover(0, 0, Collider::new_circle(CollisionLayer::Player, 10));
    assert!(!entities_collide(&bullet, &friend));
    let mut apart = foe;
    apart.collider = Some(Collider {
        hit_box: circle(100, 0, 10),
        ..apart.collider.unwrap()
    });
    assert!(!entities_collide(&bullet, &apart));
}

#[test]
fn detector_takes_each_pair_once_in_order_of_handles() {
    let mut w = world();
    let mut shot = |x: i32, vx: i32, w: &mut World| {
        let mut e = mover(x, 0, Collider::new_circle(CollisionLayer::EnemyProjectile, 10));
        e.velocity = Some(Velocity(Vec2::new(vx, 0)));
        w.spawn(e).unwrap()
    };
    let a = shot(0, 1, &mut w);
    let b = shot(5, 2, &mut w);
    let c = shot(10, 3, &mut w);
    let d = shot(1000, 4, &mut w);
    update_hitbox_positions(&mut w).unwrap();
    let events = detect_collisions(&w);
    let pairs: Vec<(EntityId, EntityId)> = events.iter().map(|e| (e.entity1, e.entity2)).collect();
    assert_eq!(pairs, vec![(a, b), (a, c), (b, c)]);
    assert_eq!(events[1].velocity1, Vec2::new(1, 0));
    assert_eq!(events[1].velocity2, Vec2::new(3, 0));
    assert_eq!(events[2].normal, Vec2::new(1000, 0));
    assert!(pairs.iter().all(|p| p.0 != d && p.1 != d));
}

#[test]
fn detector_passes_over_empty_slots() {
    let mut w = world();
    let a = w.spawn(mover(0, 0, Collider::new_circle(CollisionLayer::EnemyProjectile, 10))).unwrap();
    let b = w.spawn(mover(0, 0, Collider::new_circle(CollisionLayer::EnemyProjectile, 10))).unwrap();
    let c = w.spawn(mover(0, 0, Collider::new_circle(CollisionLayer::Player, 10))).unwrap();
    w.despawn(b);
    let events = detect_collisions(&w);
    assert_eq!(events.len(), 1);
    assert_eq!((events[0].entity1, events[0].entity2), (a, c));
}

#[test]
fn detector_finds_nothing_in_an_empty_world() {
    assert!(detect_collisions(&world()).is_empty());
}
