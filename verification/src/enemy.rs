//! Enemies: where they appear and how they chase the player.

use vstd::prelude::*;
use crate::clock::Timer;
use crate::clock::TimerMode;
use crate::collision::Collider;
use crate::collision::CollisionLayer;
use crate::map::MAP_RADIUS;
use crate::math::narrow;
use crate::math::narrowed;
use crate::math::rescale;
use crate::math::Vec2;
use crate::math::UNIT;
use crate::movement::Acceleration;
use crate::movement::Force;
use crate::movement::Mass;
use crate::movement::Velocity;
use crate::stage::Pass;
use crate::world::Entity;
use crate::world::EntityId;
use crate::world::PhysicsError;
use crate::world::Slots;
use crate::world::Transform;
use crate::world::World;

verus! {

/// The speed of an enemy: 100 pixels per second.
pub const ENEMY_SPEED: i32 = 100;

/// The mass of an enemy.
pub const ENEMY_MASS: i32 = 5;

/// The time between two enemies, in milliseconds.
pub const SPAWN_PERIOD_MS: u32 = 5000;

/// Marks an entity as an enemy.
#[derive(Clone, Copy, Debug, PartialEq, Eq)]
pub struct Enemy;

/// Releases one enemy each time its repeating timer finishes.
#[derive(Clone, Copy, Debug, PartialEq, Eq)]
pub struct Spawner {
    pub timer: Timer,
}

impl Spawner {
    /// A spawner that releases an enemy every `period_ms` milliseconds.
    pub fn new(period_ms: u32) -> (r: Spawner)
        ensures
            r.timer == (Timer {
                duration_ms: period_ms,
                elapsed_ms: 0,
                finished: false,
                mode: TimerMode::Repeating,
            }),
    {
        Spawner { timer: Timer::new(period_ms, TimerMode::Repeating) }
    }
}

/// The spawner of the game: one enemy every [`SPAWN_PERIOD_MS`].
pub fn setup() -> (r: Spawner)
    ensures
        r.timer == (Timer {
            duration_ms: SPAWN_PERIOD_MS,
            elapsed_ms: 0,
            finished: false,
            mode: TimerMode::Repeating,
        }),
{
    Spawner::new(SPAWN_PERIOD_MS)
}

/// Draws a coordinate with `rand::Rng::gen_range` on the thread's generator,
/// from the half-open range from `-limit` to `limit`. rand returns a value
/// of the range it is given, and panics on an empty one.
#[verifier::external_body]
fn random_coordinate(limit: i32) -> (r: i32)
    requires
        limit > 0,
    ensures
        -limit <= r < limit,
{
    rand::Rng::gen_range(&mut rand::thread_rng(), -limit..limit)
}

/// Whether `p` is a place where an enemy may appear: in the square around
/// the origin that reaches [`MAP_RADIUS`] to each side.
pub open spec fn in_spawn_area(p: Vec2) -> bool {
    -MAP_RADIUS <= p.x < MAP_RADIUS && -MAP_RADIUS <= p.y < MAP_RADIUS
}

/// The enemy that appears at `place` with a box of the given half extents.
pub open spec fn enemy_at(place: Vec2, half_size: Vec2) -> Entity {
    Entity {
        transform: Transform {
            translation: place,
            scale: Vec2 { x: UNIT, y: UNIT },
            rotation: 0,
            z: 26,
        },
        force: Some(Force(Vec2 { x: 0, y: 0 })),
        mass: Some(Mass(ENEMY_MASS)),
        acceleration: Some(Acceleration(Vec2 { x: 0, y: 0 })),
        velocity: Some(Velocity(Vec2 { x: 0, y: 0 })),
        collider: Some(
            Collider {
                layer: CollisionLayer::Enemy,
                size: half_size,
                hit_box: crate::collision::HitBox::Aabb(
                    crate::collision::Aabb2d { center: Vec2 { x: 0, y: 0 }, half_size },
                ),
            },
        ),
        gravity_source: None,
        player: None,
        enemy: Some(Enemy),
        bullet: None,
        weapon: None,
        life_span: None,
    }
}

/// The enemy that appears at `place` with a box of the given half extents.
pub fn make_enemy(place: Vec2, half_size: Vec2) -> (r: Entity)
    ensures
        r == enemy_at(place, half_size),
{
    Entity {
        transform: Transform {
            translation: place,
            scale: Vec2::new(UNIT, UNIT),
            rotation: 0,
            z: crate::world::ZLayer::Character.depth() + 1,
        },
        force: Some(Force(Vec2::zero())),
        mass: Some(Mass(ENEMY_MASS)),
        acceleration: Some(Acceleration(Vec2::zero())),
        velocity: Some(Velocity(Vec2::zero())),
        collider: Some(Collider::new_aabb(CollisionLayer::Enemy, half_size)),
        gravity_source: None,
        player: None,
        enemy: Some(Enemy),
        bullet: None,
        weapon: None,
        life_span: None,
    }
}

/// Advances the spawner by `dt` milliseconds and, where its timer finishes,
/// puts an enemy with a box of the given half extents at a random place of
/// the spawn area. Returns the handle of the new enemy, if there is one. A
/// negative half extent is refused and the world stays as it was.
pub fn spawn_enemy(world: &mut World, spawner: &mut Spawner, dt: u32, half_size: Vec2) -> (r:
    Result<Option<EntityId>, PhysicsError>)
    requires
        old(world).wf(),
    ensures
        final(world).wf(),
        final(world).boundary() == old(world).boundary(),
        final(spawner).timer == old(spawner).timer.after(dt as int),
        !final(spawner).timer.finished ==> r == Ok::<Option<EntityId>, PhysicsError>(None)
            && final(world)@ == old(world)@,
        final(spawner).timer.finished ==> r == (if half_size.x >= 0 && half_size.y >= 0 {
            Ok::<Option<EntityId>, PhysicsError>(Some(EntityId(old(world)@.len() as usize)))
        } else {
            Err(PhysicsError::MalformedSize)
        }),
        r is Err ==> final(world)@ == old(world)@,
        r matches Ok(Some(id)) ==> {
            &&& final(world)@.len() == old(world)@.len() + 1
            &&& final(world)@.drop_last() == old(world)@
            &&& final(world)@.last() matches Some(e)
            &&& in_spawn_area(e.transform.translation)
            &&& e == enemy_at(e.transform.translation, half_size)
        },
{
    spawner.timer.tick(dt);
    if spawner.timer.finished() {
        let x = random_coordinate(MAP_RADIUS);
        let y = random_coordinate(MAP_RADIUS);
        let enemy = make_enemy(Vec2::new(x, y), half_size);
        match world.spawn(enemy) {
            Ok(id) => {
                assert(final(world)@.drop_last() =~= old(world)@);
                Ok(Some(id))
            },
            Err(e) => Err(e),
        }
    } else {
        Ok(None)
    }
}

/// The place of the player among the first `n` slots: that of the entity
/// with the lowest handle that is a player and no enemy.
pub open spec fn player_place(slots: Slots, n: nat) -> Option<Vec2>
    decreases n,
{
    if n == 0 {
        None
    } else {
        match player_place(slots, (n - 1) as nat) {
            Some(p) => Some(p),
            None => match slots[n - 1] {
                Some(e) => if e.player is Some && e.enemy is None {
                    Some(e.transform.translation)
                } else {
                    None
                },
                None => None,
            },
        }
    }
}

/// Once the player is found, it stays found.
pub proof fn lemma_player_place_stays(slots: Slots, i: nat, n: nat)
    requires
        i <= n,
        player_place(slots, i) is Some,
    ensures
        player_place(slots, n) == player_place(slots, i),
    decreases n - i,
{
    if i < n {
        lemma_player_place_stays(slots, i + 1, n);
    }
}

/// The place of the player in the world, if there is one.
pub fn find_player(world: &World) -> (r: Option<Vec2>)
    ensures
        r == player_place(world@, world@.len()),
{
    let slots = world.slots();
    let n = slots.len();
    let mut i: usize = 0;
    while i < n
        invariant
            i <= n == slots.len(),
            slots@ == world@,
            player_place(slots@, i as nat) is None,
        decreases n - i,
    {
        if let Some(e) = slots[i] {
            if e.player.is_some() && e.enemy.is_none() {
                proof {
                    assert(slots@[i as int] == Some(e));
                    assert(player_place(slots@, (i + 1) as nat) == Some(e.transform.translation));
                    lemma_player_place_stays(slots@, (i + 1) as nat, n as nat);
                }
                return Some(e.transform.translation);
            }
        }
        i = i + 1;
    }
    None
}

/// The entity after `dt` milliseconds of chasing `player`: an enemy that is
/// no player moves toward the player by [`ENEMY_SPEED`] times `dt`, and stays
/// where it is once it is at the player's place. `None` where the new place
/// is not representable.
pub open spec fn chasing(e: Entity, player: Vec2, dt: u32) -> Option<Entity> {
    if e.enemy is Some && e.player is None && e.transform.translation@ != player@ {
        match narrowed(
            e.transform.translation@.plus(
                player@.minus(e.transform.translation@).rescaled(ENEMY_SPEED * dt),
            ),
        ) {
            Some(p) => Some(Entity { transform: Transform { translation: p, ..e.transform }, ..e }),
            None => None,
        }
    } else {
        Some(e)
    }
}

/// Moves an enemy toward `player` for `dt` milliseconds.
pub fn chase(e: Entity, player: Vec2, dt: u32) -> (r: Option<Entity>)
    ensures
        r == chasing(e, player, dt),
{
    let dx: i64 = player.x as i64 - e.transform.translation.x as i64;
    let dy: i64 = player.y as i64 - e.transform.translation.y as i64;
    if e.enemy.is_some() && e.player.is_none() && (dx != 0 || dy != 0) {
        let speed: i64 = ENEMY_SPEED as i64;
        assert(speed == 100);
        let q = rescale(dx, dy, speed * (dt as i64));
        match narrow(
            e.transform.translation.x as i128 + q.0,
            e.transform.translation.y as i128 + q.1,
        ) {
            Some(p) => Some(Entity { transform: Transform { translation: p, ..e.transform }, ..e }),
            None => None,
        }
    } else {
        Some(e)
    }
}

/// The world after `dt` milliseconds of chasing: with a player in it, every
/// enemy has moved toward the player; without one, nothing has moved. `None`
/// where a new place is not representable.
pub open spec fn chased(slots: Slots, boundary: crate::map::MapBoundary, dt: u32) -> Option<Slots> {
    match player_place(slots, slots.len()) {
        Some(p) => if Pass::Chase(p, dt).passes(slots, boundary) {
            Some(Pass::Chase(p, dt).passed(slots, boundary))
        } else {
            None
        },
        None => Some(slots),
    }
}

/// Moves every enemy toward the player for `dt` milliseconds. Where a new
/// place is not representable the world stays as it was.
pub fn move_enemy(world: &mut World, dt: u32) -> (r: Result<(), PhysicsError>)
    requires
        old(world).wf(),
    ensures
        final(world).wf(),
        final(world).boundary() == old(world).boundary(),
        r == (if chased(old(world)@, old(world).boundary(), dt) is Some {
            Ok::<(), PhysicsError>(())
        } else {
            Err(PhysicsError::Overflow)
        }),
        final(world)@ == (match chased(old(world)@, old(world).boundary(), dt) {
            Some(s) => s,
            None => old(world)@,
        }),
{
    match find_player(world) {
        Some(p) => world.apply(&Pass::Chase(p, dt)),
        None => Ok(()),
    }
}

} // verus!
