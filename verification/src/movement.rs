//! Kinematic components: force, mass, acceleration and velocity.

use vstd::prelude::*;
use crate::math::div_round_zero;
use crate::math::div_toward_zero;
use crate::math::mul_wide;
use crate::math::narrow;
use crate::math::narrowed;
use crate::math::Vec2;
use crate::math::Vector;
use crate::math::UNIT;
use crate::stage::Pass;
use crate::world::Entity;
use crate::world::PhysicsError;
use crate::world::World;

verus! {

/// Displacement per millisecond; carried from step to step.
#[derive(Clone, Copy, Debug, PartialEq, Eq)]
pub struct Velocity(pub Vec2);

/// Change of velocity per millisecond; derived anew each step.
#[derive(Clone, Copy, Debug, PartialEq, Eq)]
pub struct Acceleration(pub Vec2);

/// The force accumulated during the current step.
#[derive(Clone, Copy, Debug, PartialEq, Eq)]
pub struct Force(pub Vec2);

/// Inertial mass. Only a strictly positive mass is valid.
#[derive(Clone, Copy, Debug, PartialEq, Eq)]
pub struct Mass(pub i32);

/// The force that a movement intent of unit length puts on the player.
pub const BASE_PLAYER_FORCE: i32 = 100;

/// The four kinematic components of a body.
#[derive(Clone, Copy, Debug, PartialEq, Eq)]
pub struct PhysicsBundle {
    pub force: Force,
    pub mass: Mass,
    pub acceleration: Acceleration,
    pub velocity: Velocity,
}

impl Default for Velocity {
    fn default() -> (r: Velocity)
        ensures
            r.0@ == Vector::zero(),
    {
        Velocity(Vec2::zero())
    }
}

impl Default for Acceleration {
    fn default() -> (r: Acceleration)
        ensures
            r.0@ == Vector::zero(),
    {
        Acceleration(Vec2::zero())
    }
}

impl Default for Force {
    fn default() -> (r: Force)
        ensures
            r.0@ == Vector::zero(),
    {
        Force(Vec2::zero())
    }
}

impl Default for PhysicsBundle {
    /// A body at rest, with no force on it and a mass of 100.
    fn default() -> (r: PhysicsBundle)
        ensures
            r.force.0@ == Vector::zero(),
            r.mass.0 == 100,
            r.acceleration.0@ == Vector::zero(),
            r.velocity.0@ == Vector::zero(),
    {
        PhysicsBundle {
            force: Force(Vec2::zero()),
            mass: Mass(100),
            acceleration: Acceleration(Vec2::zero()),
            velocity: Velocity(Vec2::zero()),
        }
    }
}

/// The entity with no force on it, as at the start of a step.
pub open spec fn forces_reset(e: Entity) -> Entity {
    match e.force {
        Some(_) => Entity { force: Some(Force(Vec2 { x: 0, y: 0 })), ..e },
        None => e,
    }
}

/// The stored quotient of `v` by a positive `m`, each component rounded
/// toward zero.
pub open spec fn quotient(v: Vec2, m: i32) -> Vec2
    recommends
        m > 0,
{
    Vec2 { x: div_toward_zero(v.x as int, m as int) as i32, y: div_toward_zero(
        v.y as int,
        m as int,
    ) as i32 }
}

/// The entity with its acceleration derived from force and mass:
/// acceleration is force over mass, whatever it was before.
pub open spec fn acceleration_derived(e: Entity) -> Entity {
    match (e.acceleration, e.force, e.mass) {
        (Some(_), Some(f), Some(m)) => Entity {
            acceleration: Some(Acceleration(quotient(f.0, m.0))),
            ..e
        },
        _ => e,
    }
}

/// The entity after its velocity has gained acceleration times `dt`, or
/// `None` where the new velocity is not representable.
pub open spec fn velocity_integrated(e: Entity, dt: u32) -> Option<Entity> {
    match (e.velocity, e.acceleration) {
        (Some(v), Some(a)) => match narrowed(v.0@.plus(a.0@.times(dt as int))) {
            Some(next) => Some(Entity { velocity: Some(Velocity(next)), ..e }),
            None => None,
        },
        _ => Some(e),
    }
}

/// The entity after its position has gained velocity times `dt`, or `None`
/// where the new position is not representable.
pub open spec fn position_integrated(e: Entity, dt: u32) -> Option<Entity> {
    match e.velocity {
        Some(v) => match narrowed(e.transform.translation@.plus(v.0@.times(dt as int))) {
            Some(next) => Some(
                Entity {
                    transform: crate::world::Transform { translation: next, ..e.transform },
                    ..e
                },
            ),
            None => None,
        },
        None => Some(e),
    }
}

/// Sets the force on the entity to zero.
pub fn reset_force(e: Entity) -> (r: Entity)
    ensures
        r == forces_reset(e),
{
    match e.force {
        Some(_) => Entity { force: Some(Force(Vec2::zero())), ..e },
        None => e,
    }
}

/// The quotient of `v` by a positive `m`, each component rounded toward
/// zero.
pub fn divide(v: Vec2, m: i32) -> (r: Vec2)
    requires
        m > 0,
    ensures
        r == quotient(v, m),
        r@ == v@.over(m as int),
{
    proof {
        crate::math::lemma_div_toward_zero(v.x as int, m as int);
        crate::math::lemma_div_toward_zero(v.y as int, m as int);
        lemma_quotient_no_longer(v.x as int, m as int);
        lemma_quotient_no_longer(v.y as int, m as int);
    }
    let x: i128 = div_round_zero(v.x as i128, m as i128);
    let y: i128 = div_round_zero(v.y as i128, m as i128);
    Vec2 { x: x as i32, y: y as i32 }
}

/// A quotient by a positive number lies between zero and the dividend.
pub proof fn lemma_quotient_no_longer(a: int, b: int)
    requires
        b > 0,
    ensures
        a >= 0 ==> 0 <= div_toward_zero(a, b) <= a,
        a <= 0 ==> a <= div_toward_zero(a, b) <= 0,
{
    crate::math::lemma_div_toward_zero(a, b);
    let q = div_toward_zero(a, b);
    if a >= 0 {
        assert(0 <= q <= a) by (nonlinear_arith)
            requires
                0 <= q * b <= a,
                b >= 1,
        ;
    } else {
        assert(a <= q <= 0) by (nonlinear_arith)
            requires
                a <= q * b <= 0,
                b >= 1,
        ;
    }
}

/// Derives the acceleration of a valid entity from its force and mass.
pub fn derive_acceleration(e: Entity) -> (r: Entity)
    requires
        e.valid(),
    ensures
        r == acceleration_derived(e),
{
    match (e.acceleration, e.force, e.mass) {
        (Some(_), Some(f), Some(m)) => Entity {
            acceleration: Some(Acceleration(divide(f.0, m.0))),
            ..e
        },
        _ => e,
    }
}

/// `base` plus `rate` times `dt`, or `None` where that is not representable.
pub fn advance(base: Vec2, rate: Vec2, dt: u32) -> (r: Option<Vec2>)
    ensures
        r == narrowed(base@.plus(rate@.times(dt as int))),
{
    let rx: i128 = rate.x as i128;
    let ry: i128 = rate.y as i128;
    let t: i128 = dt as i128;
    assert(-0x8000_0000_0000_0000 <= rx * t <= 0x8000_0000_0000_0000 && -0x8000_0000_0000_0000
        <= ry * t <= 0x8000_0000_0000_0000) by (nonlinear_arith)
        requires
            -0x8000_0000 <= rx <= 0x8000_0000,
            -0x8000_0000 <= ry <= 0x8000_0000,
            0 <= t <= 0x1_0000_0000,
    ;
    narrow(base.x as i128 + rx * t, base.y as i128 + ry * t)
}

/// Lets the velocity of the entity gain its acceleration times `dt`.
pub fn integrate_velocity(e: Entity, dt: u32) -> (r: Option<Entity>)
    ensures
        r == velocity_integrated(e, dt),
{
    match (e.velocity, e.acceleration) {
        (Some(v), Some(a)) => match advance(v.0, a.0, dt) {
            Some(next) => Some(Entity { velocity: Some(Velocity(next)), ..e }),
            None => None,
        },
        _ => Some(e),
    }
}

/// Lets the position of the entity gain its velocity times `dt`.
pub fn integrate_position(e: Entity, dt: u32) -> (r: Option<Entity>)
    ensures
        r == position_integrated(e, dt),
{
    match e.velocity {
        Some(v) => match advance(e.transform.translation, v.0, dt) {
            Some(next) => Some(
                Entity {
                    transform: crate::world::Transform { translation: next, ..e.transform },
                    ..e
                },
            ),
            None => None,
        },
        None => Some(e),
    }
}

/// Whether `after` has the acceleration that the force and mass of `before`
/// give: force over mass, each component rounded toward zero.
pub open spec fn obeys_second_law(before: Entity, after: Entity) -> bool {
    match (before.acceleration, before.force, before.mass) {
        (Some(_), Some(f), Some(m)) => after.acceleration matches Some(a) && a.0@ == f.0@.over(
            m.0 as int,
        ),
        _ => after == before,
    }
}

/// Derives the acceleration of every entity that has force, mass and
/// acceleration: afterwards its acceleration is its force over its mass, and
/// nothing of the acceleration it had before remains.
pub fn acceleration_update(world: &mut World)
    requires
        old(world).wf(),
    ensures
        final(world).wf(),
        final(world).boundary() == old(world).boundary(),
        final(world)@ == Pass::DeriveAcceleration.passed(old(world)@, old(world).boundary()),
        final(world)@.len() == old(world)@.len(),
        forall|i: int|
            0 <= i < old(world)@.len() ==> match #[trigger] old(world)@[i] {
                Some(e) => final(world)@[i] matches Some(x) && obeys_second_law(e, x),
                None => final(world)@[i] is None,
            },
{
    let _ = world.apply(&Pass::DeriveAcceleration);
    proof {
        assert forall|i: int| 0 <= i < old(world)@.len() implies match #[trigger] old(world)@[i] {
            Some(e) => final(world)@[i] matches Some(x) && obeys_second_law(e, x),
            None => final(world)@[i] is None,
        } by {
            if let Some(e) = old(world)@[i] {
                if let (Some(_), Some(f), Some(m)) = (e.acceleration, e.force, e.mass) {
                    lemma_quotient_no_longer(f.0.x as int, m.0 as int);
                    lemma_quotient_no_longer(f.0.y as int, m.0 as int);
                }
            }
        }
    }
}

/// Lets the velocity of every entity that has velocity and acceleration gain
/// acceleration times `dt`. Where a new velocity is not representable the
/// world stays as it was.
pub fn velocity_update(world: &mut World, dt: u32) -> (r: Result<(), PhysicsError>)
    requires
        old(world).wf(),
    ensures
        final(world).wf(),
        final(world).boundary() == old(world).boundary(),
        r == (if Pass::IntegrateVelocity(dt).passes(old(world)@, old(world).boundary()) {
            Ok::<(), PhysicsError>(())
        } else {
            Err(PhysicsError::Overflow)
        }),
        final(world)@ == (if r.is_ok() {
            Pass::IntegrateVelocity(dt).passed(old(world)@, old(world).boundary())
        } else {
            old(world)@
        }),
{
    world.apply(&Pass::IntegrateVelocity(dt))
}

/// Lets the position of every entity that has a velocity gain velocity times
/// `dt`. Where a new position is not representable the world stays as it
/// was.
pub fn position_update(world: &mut World, dt: u32) -> (r: Result<(), PhysicsError>)
    requires
        old(world).wf(),
    ensures
        final(world).wf(),
        final(world).boundary() == old(world).boundary(),
        r == (if Pass::IntegratePosition(dt).passes(old(world)@, old(world).boundary()) {
            Ok::<(), PhysicsError>(())
        } else {
            Err(PhysicsError::Overflow)
        }),
        final(world)@ == (if r.is_ok() {
            Pass::IntegratePosition(dt).passed(old(world)@, old(world).boundary())
        } else {
            old(world)@
        }),
{
    world.apply(&Pass::IntegratePosition(dt))
}

/// The force that the movement intent `intent`, a unit vector in
/// thousandths, puts on the player: [`BASE_PLAYER_FORCE`] along it.
pub open spec fn intent_force(intent: Vec2) -> Vector {
    intent@.times(BASE_PLAYER_FORCE as int).over(UNIT as int)
}

/// The entity with the force of the movement intent added to its force.
/// Only a player with a force is steered, and no intent adds nothing.
/// `None` where the new force is not representable.
pub open spec fn steered(e: Entity, intent: Option<Vec2>) -> Option<Entity> {
    match (intent, e.player, e.force) {
        (Some(i), Some(_), Some(f)) => match narrowed(f.0@.plus(intent_force(i))) {
            Some(next) => Some(Entity { force: Some(Force(next)), ..e }),
            None => None,
        },
        _ => Some(e),
    }
}

/// Adds the force of the movement intent to the force on a player.
pub fn steer(e: Entity, intent: Option<Vec2>) -> (r: Option<Entity>)
    ensures
        r == steered(e, intent),
{
    match (intent, e.player, e.force) {
        (Some(i), Some(_), Some(f)) => {
            let x: i128 = div_round_zero(mul_wide(i.x, BASE_PLAYER_FORCE) as i128, UNIT as i128);
            let y: i128 = div_round_zero(mul_wide(i.y, BASE_PLAYER_FORCE) as i128, UNIT as i128);
            match narrow(f.0.x as i128 + x, f.0.y as i128 + y) {
                Some(next) => Some(Entity { force: Some(Force(next)), ..e }),
                None => None,
            }
        },
        _ => Some(e),
    }
}

/// Turns the movement intent of the player into a force: adds
/// [`BASE_PLAYER_FORCE`] along the intent to the force on every player.
/// Without an intent nothing changes. Where a new force is not
/// representable the world stays as it was.
pub fn apply_input_velocity(world: &mut World, intent: Option<Vec2>) -> (r: Result<
    (),
    PhysicsError,
>)
    requires
        old(world).wf(),
    ensures
        final(world).wf(),
        final(world).boundary() == old(world).boundary(),
        r == (if Pass::Steer(intent).passes(old(world)@, old(world).boundary()) {
            Ok::<(), PhysicsError>(())
        } else {
            Err(PhysicsError::Overflow)
        }),
        final(world)@ == (if r.is_ok() {
            Pass::Steer(intent).passed(old(world)@, old(world).boundary())
        } else {
            old(world)@
        }),
{
    world.apply(&Pass::Steer(intent))
}

} // verus!
