//! Gravity wells and the force they exert.

use vstd::prelude::*;
use crate::math::div_round_zero;
use crate::math::div_toward_zero;
use crate::math::mul_wide;
use crate::math::narrow;
use crate::math::narrowed;
use crate::math::rescale;
use crate::math::vector;
use crate::math::Vec2;
use crate::math::Vector;
use crate::movement::Force;
use crate::movement::Mass;
use crate::movement::lemma_quotient_no_longer;
use crate::stage::Pass;
use crate::world::Entity;
use crate::world::PhysicsError;
use crate::world::Slots;
use crate::world::Transform;
use crate::world::World;

verus! {

/// The gravitational constant.
pub const GRAVITY_CONST: i32 = 1;

/// A body that attracts others; it acts only on what is closer than
/// `max_range`.
#[derive(Clone, Copy, Debug, PartialEq, Eq)]
pub struct GravitySource {
    pub max_range: i32,
}

/// The force that a source of mass `source_mass` at `source` exerts on a
/// body of mass `mass` at `position`: none where the two are in one place or
/// not closer than `range`; else [`GRAVITY_CONST`] times the product of the
/// masses over the squared distance, directed at the source. Two places that
/// differ are at least one unit apart, so the squared distance that divides
/// is never less than one.
pub open spec fn pull(
    position: Vector,
    mass: int,
    source: Vector,
    source_mass: int,
    range: int,
) -> Vector {
    let d = source.minus(position);
    if d != Vector::zero() && range > 0 && d.norm_sq() < range * range {
        d.rescaled(GRAVITY_CONST * div_toward_zero(mass * source_mass, d.norm_sq()))
    } else {
        Vector::zero()
    }
}

/// The force that what is in `slot` exerts: only an entity with a gravity
/// source and a mass exerts any.
pub open spec fn slot_pull(position: Vector, mass: int, slot: Option<Entity>) -> Vector {
    match slot {
        Some(s) => match (s.gravity_source, s.mass) {
            (Some(g), Some(m)) => pull(
                position,
                mass,
                s.transform.translation@,
                m.0 as int,
                g.max_range as int,
            ),
            _ => Vector::zero(),
        },
        None => Vector::zero(),
    }
}

/// The sum of the forces that the first `n` slots exert.
pub open spec fn total_pull(position: Vector, mass: int, slots: Slots, n: nat) -> Vector
    decreases n,
{
    if n == 0 {
        Vector::zero()
    } else {
        total_pull(position, mass, slots, (n - 1) as nat).plus(
            slot_pull(position, mass, slots[n - 1]),
        )
    }
}

/// The entity with the force that the sources in `slots` exert on it in
/// place of the force it had; `None` where that force is not representable.
/// Only an entity with force and mass is attracted.
pub open spec fn attracted(e: Entity, slots: Slots) -> Option<Entity> {
    match (e.force, e.mass) {
        (Some(_), Some(m)) => match narrowed(
            total_pull(e.transform.translation@, m.0 as int, slots, slots.len()),
        ) {
            Some(f) => Some(Entity { force: Some(Force(f)), ..e }),
            None => None,
        },
        _ => Some(e),
    }
}

/// The force between a body and a source, in full width.
pub(crate) fn pull_wide(
    position: Vec2,
    mass: i32,
    source: Vec2,
    source_mass: i32,
    range: i32,
) -> (r: (i128, i128))
    ensures
        vector(r.0 as int, r.1 as int) == pull(
            position@,
            mass as int,
            source@,
            source_mass as int,
            range as int,
        ),
        -0x4000_0000_0000_0000 <= r.0 <= 0x4000_0000_0000_0000,
        -0x4000_0000_0000_0000 <= r.1 <= 0x4000_0000_0000_0000,
{
    let dx: i64 = source.x as i64 - position.x as i64;
    let dy: i64 = source.y as i64 - position.y as i64;
    if dx == 0 && dy == 0 {
        return (0, 0);
    }
    let x: i128 = dx as i128;
    let y: i128 = dy as i128;
    let reach: i128 = range as i128;
    assert(0 <= x * x <= 0x1_0000_0000_0000_0000 && 0 <= y * y <= 0x1_0000_0000_0000_0000 && 1 <= x
        * x + y * y) by (nonlinear_arith)
        requires
            x != 0 || y != 0,
            -0x1_0000_0000 <= x <= 0x1_0000_0000,
            -0x1_0000_0000 <= y <= 0x1_0000_0000,
    ;
    assert(0 <= reach * reach <= 0x4000_0000_0000_0000) by (nonlinear_arith)
        requires
            -0x8000_0000 <= reach <= 0x8000_0000,
    ;
    let n: i128 = x * x + y * y;
    if range > 0 && n < reach * reach {
        let product: i64 = mul_wide(mass, source_mass);
        let quotient: i128 = div_round_zero(product as i128, n);
        proof {
            lemma_quotient_no_longer(product as int, n as int);
        }
        let magnitude: i128 = GRAVITY_CONST as i128 * quotient;
        rescale(dx, dy, magnitude as i64)
    } else {
        (0, 0)
    }
}

/// The force that a source of mass `source_mass` at `source`, acting within
/// `range`, exerts on a body of mass `mass` at `position`; `None` where it
/// is not representable.
pub fn gravity_pull(
    position: Vec2,
    mass: i32,
    source: Vec2,
    source_mass: i32,
    range: i32,
) -> (r: Option<Vec2>)
    ensures
        r == narrowed(pull(position@, mass as int, source@, source_mass as int, range as int)),
{
    let f = pull_wide(position, mass, source, source_mass, range);
    narrow(f.0, f.1)
}

/// The sum of the forces that the sources in `slots` exert on a body of
/// mass `mass` at `position`, in full width.
pub(crate) fn total_gravity(position: Vec2, mass: i32, slots: &Vec<Option<Entity>>) -> (r: (
    i128,
    i128,
))
    ensures
        vector(r.0 as int, r.1 as int) == total_pull(
            position@,
            mass as int,
            slots@,
            slots@.len(),
        ),
{
    let n = slots.len();
    let mut x: i128 = 0;
    let mut y: i128 = 0;
    let mut i: usize = 0;
    while i < n
        invariant
            i <= n == slots.len(),
            vector(x as int, y as int) == total_pull(position@, mass as int, slots@, i as nat),
            -(i * 0x4000_0000_0000_0000) <= x <= i * 0x4000_0000_0000_0000,
            -(i * 0x4000_0000_0000_0000) <= y <= i * 0x4000_0000_0000_0000,
        decreases n - i,
    {
        let slot = slots[i];
        let f = slot_force(position, mass, slot);
        x = x + f.0;
        y = y + f.1;
        i = i + 1;
    }
    (x, y)
}

/// The force that what is in `slot` exerts, in full width.
fn slot_force(position: Vec2, mass: i32, slot: Option<Entity>) -> (r: (i128, i128))
    ensures
        vector(r.0 as int, r.1 as int) == slot_pull(position@, mass as int, slot),
        -0x4000_0000_0000_0000 <= r.0 <= 0x4000_0000_0000_0000,
        -0x4000_0000_0000_0000 <= r.1 <= 0x4000_0000_0000_0000,
{
    match slot {
        Some(s) => match (s.gravity_source, s.mass) {
            (Some(g), Some(m)) => pull_wide(position, mass, s.transform.translation, m.0, g.max_range),
            _ => (0, 0),
        },
        None => (0, 0),
    }
}

/// Replaces the force on the entity by the force that the sources in
/// `slots` exert on it.
pub fn attract(e: Entity, slots: &Vec<Option<Entity>>) -> (r: Option<Entity>)
    ensures
        r == attracted(e, slots@),
{
    match (e.force, e.mass) {
        (Some(_), Some(m)) => {
            let f = total_gravity(e.transform.translation, m.0, slots);
            match narrow(f.0, f.1) {
                Some(force) => Some(Entity { force: Some(Force(force)), ..e }),
                None => None,
            }
        },
        _ => Some(e),
    }
}

/// Sets the force on every entity that has force and mass to the sum of the
/// forces that the gravity sources of the world exert on it. Where a force
/// is not representable the world stays as it was.
pub fn force_update(world: &mut World) -> (r: Result<(), PhysicsError>)
    requires
        old(world).wf(),
    ensures
        final(world).wf(),
        final(world).boundary() == old(world).boundary(),
        r == (if Pass::Gravity.passes(old(world)@, old(world).boundary()) {
            Ok::<(), PhysicsError>(())
        } else {
            Err(PhysicsError::Overflow)
        }),
        final(world)@ == (if r.is_ok() {
            Pass::Gravity.passed(old(world)@, old(world).boundary())
        } else {
            old(world)@
        }),
{
    world.apply(&Pass::Gravity)
}

/// A gravity well: an entity at `place` with a mass and a range, drawn at
/// the given scale. It has no force of its own, so nothing moves it.
pub open spec fn well(place: Vec2, scale: i32, mass: i32, max_range: i32) -> Entity {
    Entity {
        gravity_source: Some(GravitySource { max_range }),
        mass: Some(Mass(mass)),
        ..Entity::bare(
            Transform { translation: place, scale: Vec2 { x: scale, y: scale }, rotation: 0, z: 2 },
        )
    }
}

/// A gravity well at `place`.
pub fn make_well(place: Vec2, scale: i32, mass: i32, max_range: i32) -> (r: Entity)
    ensures
        r == well(place, scale, mass, max_range),
{
    Entity {
        gravity_source: Some(GravitySource { max_range }),
        mass: Some(Mass(mass)),
        ..Entity::new(
            Transform { translation: place, scale: Vec2::new(scale, scale), rotation: 0, z: 2 },
        )
    }
}

/// The three gravity wells of the game.
pub open spec fn wells() -> Seq<Option<Entity>> {
    seq![
        Some(well(Vec2 { x: (-500_000) as i32, y: 0 }, 1000, 2_000_000, 2_000_000)),
        Some(
            well(
                Vec2 { x: (-300_000) as i32, y: (-400_000) as i32 },
                1500,
                6_000_000,
                2_500_000,
            ),
        ),
        Some(well(Vec2 { x: 1_500_000, y: 1_500_000 }, 5000, 250_000_000, 15_000_000)),
    ]
}

/// Puts the three gravity wells of the game into the world.
pub fn setup(world: &mut World)
    requires
        old(world).wf(),
    ensures
        final(world).wf(),
        final(world).boundary() == old(world).boundary(),
        final(world)@ == old(world)@ + wells(),
{
    let _ = world.spawn(make_well(Vec2::new(-500_000, 0), 1000, 2_000_000, 2_000_000));
    let _ = world.spawn(make_well(Vec2::new(-300_000, -400_000), 1500, 6_000_000, 2_500_000));
    let _ = world.spawn(make_well(Vec2::new(1_500_000, 1_500_000), 5000, 250_000_000, 15_000_000));
    assert(final(world)@ =~= old(world)@ + wells());
}

/// A source exerts no force on a body that is not closer than its range,
/// nor on one in its own place; on any other, a force no greater than
/// [`GRAVITY_CONST`] times the product of the masses over the squared
/// distance.
pub proof fn lemma_pull_law(position: Vector, mass: int, source: Vector, source_mass: int, range: int)
    ensures
        source.minus(position).norm_sq() >= range * range ==> pull(
            position,
            mass,
            source,
            source_mass,
            range,
        ) == Vector::zero(),
        source == position ==> pull(position, mass, source, source_mass, range) == Vector::zero(),
        ({
            let magnitude = GRAVITY_CONST * div_toward_zero(
                mass * source_mass,
                source.minus(position).norm_sq(),
            );
            pull(position, mass, source, source_mass, range).norm_sq() <= magnitude * magnitude
        }),
{
    let d = source.minus(position);
    let magnitude = GRAVITY_CONST * div_toward_zero(mass * source_mass, d.norm_sq());
    if d != Vector::zero() && range > 0 && d.norm_sq() < range * range {
        crate::math::lemma_rescaled_within(d, magnitude);
    } else {
        assert(0 <= magnitude * magnitude) by (nonlinear_arith);
    }
}

} // verus!
