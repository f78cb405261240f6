//! The player, its weapon, and the projectiles it fires.

use vstd::prelude::*;
use crate::clock::Timer;
use crate::clock::TimerMode;
use crate::collision::Collider;
use crate::collision::CollisionEvent;
use crate::collision::CollisionLayer;
use crate::map::reflect_velocity;
use crate::map::reflected;
use crate::math::div_round_zero;
use crate::math::mul_wide;
use crate::math::narrow;
use crate::math::narrowed;
use crate::math::Vec2;
use crate::math::Vector;
use crate::math::UNIT;
use crate::movement::Acceleration;
use crate::movement::Force;
use crate::movement::Mass;
use crate::movement::Velocity;
use crate::stage::Pass;
use crate::world::all_valid;
use crate::world::copy_slots;
use crate::world::lookup;
use crate::world::slot_at;
use crate::world::without;
use crate::world::Entity;
use crate::world::EntityId;
use crate::world::PhysicsError;
use crate::world::Slots;
use crate::world::Transform;
use crate::world::World;
use crate::world::ZLayer;

verus! {

/// The radius of a projectile: ten pixels.
pub const BULLET_RADIUS: i32 = 10_000;

/// How long a projectile lives, in milliseconds.
pub const BULLET_DURATION_MS: u32 = 1000;

/// The mass of a projectile.
pub const BULLET_MASS: i32 = 10;

/// The mass of the player.
pub const PLAYER_MASS: i32 = 10;

/// The half extents of the player's box: 75 by 125 pixels.
pub const PLAYER_HALF_WIDTH: i32 = 75_000;

pub const PLAYER_HALF_HEIGHT: i32 = 125_000;

/// The cooldown of the player's weapon, in milliseconds.
pub const WEAPON_COOLDOWN_MS: u32 = 50;

/// The speed of the player's projectiles: 1000 pixels per second.
pub const WEAPON_SPEED: i32 = 1000;

/// The damage of the player's projectiles.
pub const WEAPON_DAMAGE: i32 = 50;

/// Marks the entity that the player controls.
#[derive(Clone, Copy, Debug, PartialEq, Eq)]
pub struct Player;

/// A projectile: who fired it and the damage it carries.
#[derive(Clone, Copy, Debug, PartialEq, Eq)]
pub struct Bullet {
    pub owner: EntityId,
    pub damage: i32,
}

/// A weapon: its cooldown, the speed of its projectiles and their damage.
#[derive(Clone, Copy, Debug, PartialEq, Eq)]
pub struct Weapon {
    pub timer: Timer,
    pub speed: i32,
    pub damage: i32,
}

/// The place where an entity first appeared.
#[derive(Clone, Copy, Debug, PartialEq, Eq)]
pub struct SpawnLocation {
    pub xy: Vec2,
}

/// The time an entity has left; when its timer finishes the entity is
/// removed.
#[derive(Clone, Copy, Debug, PartialEq, Eq)]
pub struct LifeSpan {
    pub timer: Timer,
}

/// The player as it enters the world: at the origin, at rest, with its box
/// and its weapon.
pub open spec fn new_player() -> Entity {
    Entity {
        transform: Transform {
            translation: Vec2 { x: 0, y: 0 },
            scale: Vec2 { x: UNIT, y: UNIT },
            rotation: 0,
            z: 25,
        },
        force: Some(Force(Vec2 { x: 0, y: 0 })),
        mass: Some(Mass(PLAYER_MASS)),
        acceleration: Some(Acceleration(Vec2 { x: 0, y: 0 })),
        velocity: Some(Velocity(Vec2 { x: 0, y: 0 })),
        collider: Some(
            Collider {
                layer: CollisionLayer::Player,
                size: Vec2 { x: PLAYER_HALF_WIDTH, y: PLAYER_HALF_HEIGHT },
                hit_box: crate::collision::HitBox::Aabb(
                    crate::collision::Aabb2d {
                        center: Vec2 { x: 0, y: 0 },
                        half_size: Vec2 { x: PLAYER_HALF_WIDTH, y: PLAYER_HALF_HEIGHT },
                    },
                ),
            },
        ),
        gravity_source: None,
        player: Some(Player),
        enemy: None,
        bullet: None,
        weapon: Some(
            Weapon {
                timer: Timer {
                    duration_ms: WEAPON_COOLDOWN_MS,
                    elapsed_ms: 0,
                    finished: false,
                    mode: TimerMode::Once,
                },
                speed: WEAPON_SPEED,
                damage: WEAPON_DAMAGE,
            },
        ),
        life_span: None,
    }
}

/// Puts the player into the world.
pub fn spawn_player(world: &mut World) -> (id: EntityId)
    requires
        old(world).wf(),
    ensures
        final(world).wf(),
        final(world).boundary() == old(world).boundary(),
        final(world)@ == old(world)@.push(Some(new_player())),
        id.0 == old(world)@.len(),
{
    let player = Entity {
        transform: Transform {
            translation: Vec2::zero(),
            scale: Vec2::new(UNIT, UNIT),
            rotation: 0,
            z: ZLayer::Character.depth(),
        },
        force: Some(Force(Vec2::zero())),
        mass: Some(Mass(PLAYER_MASS)),
        acceleration: Some(Acceleration(Vec2::zero())),
        velocity: Some(Velocity(Vec2::zero())),
        collider: Some(
            Collider::new_aabb(
                CollisionLayer::Player,
                Vec2::new(PLAYER_HALF_WIDTH, PLAYER_HALF_HEIGHT),
            ),
        ),
        gravity_source: None,
        player: Some(Player),
        enemy: None,
        bullet: None,
        weapon: Some(
            Weapon {
                timer: Timer::new(WEAPON_COOLDOWN_MS, TimerMode::Once),
                speed: WEAPON_SPEED,
                damage: WEAPON_DAMAGE,
            },
        ),
        life_span: None,
    };
    let n = world.len();
    match world.spawn(player) {
        Ok(id) => id,
        Err(_) => EntityId(n),
    }
}

/// The entity after `dt` more milliseconds of its life span, or `None`
/// where that ends its life. An entity without a life span lives on as it
/// is.
pub open spec fn aged(e: Entity, dt: u32) -> Option<Entity> {
    match e.life_span {
        Some(l) => if l.timer.after(dt as int).finished {
            None
        } else {
            Some(Entity { life_span: Some(LifeSpan { timer: l.timer.after(dt as int) }), ..e })
        },
        None => Some(e),
    }
}

/// Ages the life span of the entity by `dt` milliseconds; `None` where that
/// ends its life.
pub fn age(e: Entity, dt: u32) -> (r: Option<Entity>)
    ensures
        r == aged(e, dt),
        r matches Some(x) ==> (e.valid() ==> x.valid()),
{
    match e.life_span {
        Some(l) => {
            let mut timer = l.timer;
            timer.tick(dt);
            if timer.finished() {
                None
            } else {
                Some(Entity { life_span: Some(LifeSpan { timer }), ..e })
            }
        },
        None => Some(e),
    }
}

/// Ages every life span by `dt` milliseconds and removes each entity whose
/// life span has ended, whatever else happened to it.
pub fn despawn_timed_objects(world: &mut World, dt: u32)
    requires
        old(world).wf(),
    ensures
        final(world).wf(),
        final(world).boundary() == old(world).boundary(),
        final(world)@ == Pass::Age(dt).passed(old(world)@, old(world).boundary()),
{
    let _ = world.apply(&Pass::Age(dt));
}

/// Whether the entity fires at `target` once `dt` more milliseconds have
/// passed: it is a player with a weapon whose cooldown is over by then, and
/// the target is not where the entity is.
pub open spec fn fires(e: Entity, target: Option<Vec2>, dt: u32) -> bool {
    &&& e.player is Some
    &&& e.weapon matches Some(w)
    &&& target matches Some(t)
    &&& w.timer.after(dt as int).finished
    &&& t@ != e.transform.translation@
}

/// The entity after the firing stage: the weapon of a player has advanced by
/// `dt` milliseconds, and its cooldown has started over where it fired.
pub open spec fn triggered(e: Entity, target: Option<Vec2>, dt: u32) -> Entity {
    match (e.player, e.weapon) {
        (Some(_), Some(w)) => {
            let ticked = w.timer.after(dt as int);
            let timer = if fires(e, target, dt) {
                Timer { elapsed_ms: 0, finished: false, ..ticked }
            } else {
                ticked
            };
            Entity { weapon: Some(Weapon { timer, ..w }), ..e }
        },
        _ => e,
    }
}

/// The velocity of a projectile that `e` fires at `t`: the weapon's speed,
/// directed from the entity at the target; `None` where it is not
/// representable.
pub open spec fn muzzle_velocity(e: Entity, t: Vec2) -> Option<Vec2> {
    narrowed(t@.minus(e.transform.translation@).rescaled(e.weapon.unwrap().speed as int))
}

/// The projectile that the entity `e` behind handle `owner` fires with the
/// velocity `velocity`: at the place of `e`, a circle of radius
/// [`BULLET_RADIUS`] on the layer of player projectiles, with a life span of
/// [`BULLET_DURATION_MS`].
pub open spec fn bullet_of(owner: EntityId, e: Entity, velocity: Vec2) -> Entity {
    Entity {
        transform: Transform {
            translation: e.transform.translation,
            scale: Vec2 { x: UNIT, y: UNIT },
            rotation: 0,
            z: e.transform.z,
        },
        force: Some(Force(Vec2 { x: 0, y: 0 })),
        mass: Some(Mass(BULLET_MASS)),
        acceleration: Some(Acceleration(Vec2 { x: 0, y: 0 })),
        velocity: Some(Velocity(velocity)),
        collider: Some(
            Collider {
                layer: CollisionLayer::PlayerProjectile,
                size: Vec2 { x: BULLET_RADIUS, y: BULLET_RADIUS },
                hit_box: crate::collision::HitBox::Circle(
                    crate::collision::BoundingCircle {
                        center: Vec2 { x: 0, y: 0 },
                        radius: BULLET_RADIUS,
                    },
                ),
            },
        ),
        gravity_source: None,
        player: None,
        enemy: None,
        bullet: Some(Bullet { owner, damage: e.weapon.unwrap().damage }),
        weapon: None,
        life_span: Some(
            LifeSpan {
                timer: Timer {
                    duration_ms: BULLET_DURATION_MS,
                    elapsed_ms: 0,
                    finished: false,
                    mode: TimerMode::Once,
                },
            },
        ),
    }
}

/// The projectiles that the first `n` slots fire, in the order of their
/// handles; `None` where the velocity of one is not representable.
pub open spec fn volley(slots: Slots, target: Option<Vec2>, dt: u32, n: nat) -> Option<
    Seq<Option<Entity>>,
>
    decreases n,
{
    if n == 0 {
        Some(Seq::empty())
    } else {
        match volley(slots, target, dt, (n - 1) as nat) {
            Some(before) => match slots[n - 1] {
                Some(e) => if fires(e, target, dt) {
                    match muzzle_velocity(e, target.unwrap()) {
                        Some(v) => Some(
                            before.push(Some(bullet_of(EntityId((n - 1) as usize), e, v))),
                        ),
                        None => None,
                    }
                } else {
                    Some(before)
                },
                None => Some(before),
            },
            None => None,
        }
    }
}

/// Advances the weapon of a player by `dt` milliseconds and starts its
/// cooldown over where it fires at `target`.
pub fn advance_weapon(e: Entity, target: Option<Vec2>, dt: u32) -> (r: Entity)
    ensures
        r == triggered(e, target, dt),
        e.valid() ==> r.valid(),
{
    match (e.player, e.weapon) {
        (Some(_), Some(w)) => {
            let mut timer = w.timer;
            timer.tick(dt);
            if let Some(t) = target {
                if timer.finished() && !(t.x == e.transform.translation.x && t.y
                    == e.transform.translation.y) {
                    timer.reset();
                }
            }
            Entity { weapon: Some(Weapon { timer, ..w }), ..e }
        },
        _ => e,
    }
}

/// Whether the entity fires at `target` once `dt` more milliseconds have
/// passed.
pub fn will_fire(e: &Entity, target: Option<Vec2>, dt: u32) -> (r: bool)
    ensures
        r == fires(*e, target, dt),
{
    match (e.player, e.weapon, target) {
        (Some(_), Some(w), Some(t)) => {
            let mut timer = w.timer;
            timer.tick(dt);
            timer.finished() && !(t.x == e.transform.translation.x && t.y
                == e.transform.translation.y)
        },
        _ => false,
    }
}

/// The projectile that `e`, behind handle `owner`, fires with `velocity`.
pub fn make_bullet(owner: EntityId, e: &Entity, velocity: Vec2) -> (r: Entity)
    requires
        e.weapon is Some,
    ensures
        r == bullet_of(owner, *e, velocity),
        r.valid(),
{
    Entity {
        transform: Transform {
            translation: e.transform.translation,
            scale: Vec2::new(UNIT, UNIT),
            rotation: 0,
            z: e.transform.z,
        },
        force: Some(Force(Vec2::zero())),
        mass: Some(Mass(BULLET_MASS)),
        acceleration: Some(Acceleration(Vec2::zero())),
        velocity: Some(Velocity(velocity)),
        collider: Some(Collider::new_circle(CollisionLayer::PlayerProjectile, BULLET_RADIUS)),
        gravity_source: None,
        player: None,
        enemy: None,
        bullet: Some(Bullet { owner, damage: e.weapon.unwrap().damage }),
        weapon: None,
        life_span: Some(LifeSpan { timer: Timer::new(BULLET_DURATION_MS, TimerMode::Once) }),
    }
}

/// The firing stage. The weapon of every player advances by `dt`
/// milliseconds. Where a target is given and the cooldown of a weapon is
/// over, the player fires: a projectile enters the world at the player's
/// place, flying at the target with the weapon's speed, and the cooldown
/// starts over. A target at the player's own place fires nothing. Where the
/// velocity of a projectile is not representable the world stays as it was.
pub fn shoot(world: &mut World, target: Option<Vec2>, dt: u32) -> (r: Result<(), PhysicsError>)
    requires
        old(world).wf(),
    ensures
        final(world).wf(),
        final(world).boundary() == old(world).boundary(),
        r == (if volley(old(world)@, target, dt, old(world)@.len()) is Some {
            Ok::<(), PhysicsError>(())
        } else {
            Err(PhysicsError::Overflow)
        }),
        final(world)@ == (match volley(old(world)@, target, dt, old(world)@.len()) {
            Some(bullets) => Pass::Trigger(target, dt).passed(old(world)@, old(world).boundary())
                + bullets,
            None => old(world)@,
        }),
{
    let n = world.len();
    let mut bullets: Vec<Option<Entity>> = Vec::new();
    let mut i: usize = 0;
    while i < n
        invariant
            i <= n == world@.len(),
            *world == *old(world),
            world.wf(),
            all_valid(bullets@),
            forall|j: int| 0 <= j < bullets@.len() ==> #[trigger] bullets@[j] is Some,
            volley(world@, target, dt, i as nat) == Some(bullets@),
        decreases n - i,
    {
        if let Some(e) = world.slots()[i] {
            if will_fire(&e, target, dt) {
                let t = target.unwrap();
                match e.transform.translation.toward(t, e.weapon.unwrap().speed) {
                    Some(v) => {
                        bullets.push(Some(make_bullet(EntityId(i), &e, v)));
                    },
                    None => {
                        proof {
                            lemma_volley_fails_on(world@, target, dt, (i + 1) as nat, n as nat);
                        }
                        return Err(PhysicsError::Overflow);
                    },
                }
            }
        }
        i = i + 1;
    }
    let _ = world.apply(&Pass::Trigger(target, dt));
    let ghost base = world@;
    let count = bullets.len();
    let mut k: usize = 0;
    while k < count
        invariant
            k <= count == bullets.len(),
            world.wf(),
            world.boundary() == old(world).boundary(),
            all_valid(bullets@),
            forall|j: int| 0 <= j < bullets@.len() ==> #[trigger] bullets@[j] is Some,
            world@ == base + bullets@.take(k as int),
        decreases count - k,
    {
        if let Some(b) = bullets[k] {
            let _ = world.spawn(b);
            assert(world@ =~= base + bullets@.take(k + 1));
        }
        k = k + 1;
    }
    assert(bullets@.take(count as int) =~= bullets@);
    Ok(())
}

/// Once the velocity of one projectile is not representable, the volley of
/// any longer prefix is not either.
pub proof fn lemma_volley_fails_on(slots: Slots, target: Option<Vec2>, dt: u32, i: nat, n: nat)
    requires
        i <= n,
        volley(slots, target, dt, i) is None,
    ensures
        volley(slots, target, dt, n) is None,
    decreases n - i,
{
    if i < n {
        lemma_volley_fails_on(slots, target, dt, i + 1, n);
    }
}

/// Whether the slot holds a projectile that can bounce: an entity with a
/// velocity that is a bullet.
pub open spec fn bounces(slot: Option<Entity>) -> bool {
    slot matches Some(e) && e.velocity is Some && e.bullet is Some
}

/// How far each of two projectiles that collide along `normal` is moved
/// away from the other: half of [`BULLET_RADIUS`] along the normal.
pub open spec fn separation(normal: Vec2) -> Vector {
    normal@.times(BULLET_RADIUS as int / 2).over(UNIT as int)
}

/// The entity at a new place and with a new velocity.
pub open spec fn moved(e: Entity, place: Vec2, velocity: Vec2) -> Entity {
    Entity {
        transform: Transform { translation: place, ..e.transform },
        velocity: Some(Velocity(velocity)),
        ..e
    }
}

/// The world after the elastic answer to one event. Where both participants
/// are there, are two entities, and are projectiles, each gets the mirror
/// image of the velocity that the event recorded for it, and the two are
/// moved apart along the normal. An event with a participant that is gone or
/// is no projectile, or with a normal of zero, changes nothing. `None` where
/// a new velocity or place is not representable.
pub open spec fn bounced(slots: Slots, ev: CollisionEvent) -> Option<Slots> {
    let a = lookup(slots, ev.entity1);
    let b = lookup(slots, ev.entity2);
    if ev.entity1 != ev.entity2 && bounces(a) && bounces(b) && ev.normal@ != Vector::zero() {
        let shift = separation(ev.normal);
        match (
            narrowed(reflected(ev.velocity1@, ev.normal@)),
            narrowed(reflected(ev.velocity2@, ev.normal@)),
            narrowed(a.unwrap().transform.translation@.minus(shift)),
            narrowed(b.unwrap().transform.translation@.plus(shift)),
        ) {
            (Some(v1), Some(v2), Some(p1), Some(p2)) => Some(
                slots.update(ev.entity1.0 as int, Some(moved(a.unwrap(), p1, v1))).update(
                    ev.entity2.0 as int,
                    Some(moved(b.unwrap(), p2, v2)),
                ),
            ),
            _ => None,
        }
    } else {
        Some(slots)
    }
}

/// The world after the elastic answers to the first `n` events, in order.
pub open spec fn bounced_all(slots: Slots, events: Seq<CollisionEvent>, n: nat) -> Option<Slots>
    decreases n,
{
    if n == 0 {
        Some(slots)
    } else {
        match bounced_all(slots, events, (n - 1) as nat) {
            Some(s) => bounced(s, events[n - 1]),
            None => None,
        }
    }
}

/// Once an event cannot be answered, no longer run of events can.
pub proof fn lemma_bounce_fails_on(slots: Slots, events: Seq<CollisionEvent>, i: nat, n: nat)
    requires
        i <= n,
        bounced_all(slots, events, i) is None,
    ensures
        bounced_all(slots, events, n) is None,
    decreases n - i,
{
    if i < n {
        lemma_bounce_fails_on(slots, events, i + 1, n);
    }
}

/// Answers one event elastically in `slots`. Returns whether the answer is
/// representable; where it is not, `slots` stay as they were.
pub fn bounce(slots: &mut Vec<Option<Entity>>, ev: &CollisionEvent) -> (r: bool)
    requires
        all_valid(old(slots)@),
    ensures
        all_valid(final(slots)@),
        r == bounced(old(slots)@, *ev) is Some,
        final(slots)@ == (match bounced(old(slots)@, *ev) {
            Some(s) => s,
            None => old(slots)@,
        }),
{
    if ev.entity1.0 == ev.entity2.0 {
        return true;
    }
    match (slot_at(slots, ev.entity1), slot_at(slots, ev.entity2)) {
        (Some(a), Some(b)) => {
            if a.velocity.is_some() && a.bullet.is_some() && b.velocity.is_some()
                && b.bullet.is_some() && !ev.normal.is_zero() {
                let half: i32 = BULLET_RADIUS / 2;
                let sx: i128 = div_round_zero(mul_wide(ev.normal.x, half) as i128, UNIT as i128);
                let sy: i128 = div_round_zero(mul_wide(ev.normal.y, half) as i128, UNIT as i128);
                let v1 = reflect_velocity(ev.velocity1, ev.normal);
                let v2 = reflect_velocity(ev.velocity2, ev.normal);
                let p1 = narrow(
                    a.transform.translation.x as i128 - sx,
                    a.transform.translation.y as i128 - sy,
                );
                let p2 = narrow(
                    b.transform.translation.x as i128 + sx,
                    b.transform.translation.y as i128 + sy,
                );
                match (v1, v2, p1, p2) {
                    (Some(v1), Some(v2), Some(p1), Some(p2)) => {
                        slots.set(
                            ev.entity1.0,
                            Some(
                                Entity {
                                    transform: Transform { translation: p1, ..a.transform },
                                    velocity: Some(Velocity(v1)),
                                    ..a
                                },
                            ),
                        );
                        slots.set(
                            ev.entity2.0,
                            Some(
                                Entity {
                                    transform: Transform { translation: p2, ..b.transform },
                                    velocity: Some(Velocity(v2)),
                                    ..b
                                },
                            ),
                        );
                        true
                    },
                    _ => false,
                }
            } else {
                true
            }
        },
        _ => true,
    }
}

/// The elastic responder. For each event in turn whose participants are both
/// projectiles still in the world, mirrors the velocities that the event
/// recorded at its normal and moves the two apart; every other event is
/// passed over. Where a new velocity or place is not representable the world
/// stays as it was.
pub fn handle_bullet_collision(world: &mut World, events: &Vec<CollisionEvent>) -> (r: Result<
    (),
    PhysicsError,
>)
    requires
        old(world).wf(),
    ensures
        final(world).wf(),
        final(world).boundary() == old(world).boundary(),
        r == (if bounced_all(old(world)@, events@, events@.len()) is Some {
            Ok::<(), PhysicsError>(())
        } else {
            Err(PhysicsError::Overflow)
        }),
        final(world)@ == (match bounced_all(old(world)@, events@, events@.len()) {
            Some(s) => s,
            None => old(world)@,
        }),
{
    let mut next = copy_slots(world.slots());
    let n = events.len();
    let mut i: usize = 0;
    while i < n
        invariant
            i <= n == events.len(),
            *world == *old(world),
            world.wf(),
            all_valid(next@),
            bounced_all(world@, events@, i as nat) == Some(next@),
        decreases n - i,
    {
        if !bounce(&mut next, &events[i]) {
            proof {
                lemma_bounce_fails_on(world@, events@, (i + 1) as nat, n as nat);
            }
            return Err(PhysicsError::Overflow);
        }
        i = i + 1;
    }
    world.install(next);
    Ok(())
}

/// Whether the slot holds a projectile that can strike: an entity with a
/// velocity that is a bullet and no enemy.
pub open spec fn strikes(slot: Option<Entity>) -> bool {
    slot matches Some(e) && e.velocity is Some && e.bullet is Some && e.enemy is None
}

/// Whether the slot holds an enemy that can be struck: an entity with a
/// velocity that is an enemy and no bullet.
pub open spec fn struck_down(slot: Option<Entity>) -> bool {
    slot matches Some(e) && e.velocity is Some && e.enemy is Some && e.bullet is None
}

/// The world after the lethal answer to one event: where one participant is
/// a projectile and the other an enemy, both still in the world, both are
/// removed; any other event changes nothing.
pub open spec fn struck(slots: Slots, ev: CollisionEvent) -> Slots {
    let a = lookup(slots, ev.entity1);
    let b = lookup(slots, ev.entity2);
    if (strikes(a) && struck_down(b)) || (strikes(b) && struck_down(a)) {
        without(without(slots, ev.entity1), ev.entity2)
    } else {
        slots
    }
}

/// The world after the lethal answers to the first `n` events, in order.
pub open spec fn struck_all(slots: Slots, events: Seq<CollisionEvent>, n: nat) -> Slots
    decreases n,
{
    if n == 0 {
        slots
    } else {
        struck(struck_all(slots, events, (n - 1) as nat), events[n - 1])
    }
}

/// Whether the entity is a projectile that can strike.
fn can_strike(slot: &Option<Entity>) -> (r: bool)
    ensures
        r == strikes(*slot),
{
    match slot {
        Some(e) => e.velocity.is_some() && e.bullet.is_some() && e.enemy.is_none(),
        None => false,
    }
}

/// Whether the entity is an enemy that can be struck.
fn can_be_struck(slot: &Option<Entity>) -> (r: bool)
    ensures
        r == struck_down(*slot),
{
    match slot {
        Some(e) => e.velocity.is_some() && e.enemy.is_some() && e.bullet.is_none(),
        None => false,
    }
}

/// The lethal responder. For each event in turn between a projectile and an
/// enemy that are both still in the world, removes both; every other event,
/// and every event with a participant that an earlier one removed, is passed
/// over.
pub fn collision_handler_enemy_bullet(world: &mut World, events: &Vec<CollisionEvent>)
    requires
        old(world).wf(),
    ensures
        final(world).wf(),
        final(world).boundary() == old(world).boundary(),
        final(world)@ == struck_all(old(world)@, events@, events@.len()),
{
    let n = events.len();
    let mut i: usize = 0;
    while i < n
        invariant
            i <= n == events.len(),
            world.wf(),
            world.boundary() == old(world).boundary(),
            world@ == struck_all(old(world)@, events@, i as nat),
        decreases n - i,
    {
        let ev = events[i];
        let a = world.get(ev.entity1);
        let b = world.get(ev.entity2);
        if (can_strike(&a) && can_be_struck(&b)) || (can_strike(&b) && can_be_struck(&a)) {
            world.despawn(ev.entity1);
            world.despawn(ev.entity2);
        }
        i = i + 1;
    }
}

} // verus!
