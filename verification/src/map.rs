//! The circular world boundary: containment and reflection.

use vstd::prelude::*;
use crate::math::div_round_zero;
use crate::math::lemma_div_toward_zero_square;
use crate::math::lemma_rescaled_within;
use crate::math::narrow;
use crate::math::narrowed;
use crate::math::rescale;
use crate::math::vector;
use crate::math::Vec2;
use crate::math::Vector;
use crate::movement::Velocity;
use crate::stage::Pass;
use crate::world::Entity;
use crate::world::PhysicsError;
use crate::world::Transform;
use crate::world::World;

verus! {

/// The radius of the default world boundary: 3000 pixels.
pub const MAP_RADIUS: i32 = 3_000_000;

/// How far inside the boundary an entity is put back, so that it does not
/// leave again at once: one pixel.
pub const BOUNDARY_EPSILON: i32 = 1000;

/// The circular region that contains every moving entity.
#[derive(Clone, Copy, Debug, PartialEq, Eq)]
pub struct MapBoundary {
    pub center: Vec2,
    pub radius: i32,
}

impl MapBoundary {
    /// Whether there is room inside: the radius is at least
    /// [`BOUNDARY_EPSILON`].
    pub open spec fn valid(self) -> bool {
        self.radius >= BOUNDARY_EPSILON
    }

    /// Whether `position` lies outside: farther from the center than the
    /// radius.
    pub open spec fn excludes(self, position: Vector) -> bool {
        position.minus(self.center@).norm_sq() > self.radius * self.radius
    }
}

/// The mirror image of `v` at the line with normal `n`, times the squared
/// length of `n`: `|n|^2 v - 2 (v . n) n`.
pub open spec fn reflection_numerator(v: Vector, n: Vector) -> Vector {
    v.times(n.norm_sq()).minus(n.times(2 * v.dot(n)))
}

/// The mirror image of `v` at the line with the nonzero normal `n`, each
/// component rounded toward zero. For a normal of length one this is
/// `v - 2 (v . n) n`.
pub open spec fn reflected(v: Vector, n: Vector) -> Vector
    recommends
        n != Vector::zero(),
{
    reflection_numerator(v, n).over(n.norm_sq())
}

/// The square of a difference of two products, written out.
proof fn lemma_square_of_difference(v: int, s: int, n: int, d: int)
    ensures
        (v * s - n * (2 * d)) * (v * s - n * (2 * d)) == (s * s) * (v * v) - 4 * ((s * d) * (v * n))
            + 4 * ((d * d) * (n * n)),
{
    let a = v * s;
    let b = n * (2 * d);
    assert((a - b) * (a - b) == a * a - 2 * (a * b) + b * b) by (nonlinear_arith);
    assert(a * a == (s * s) * (v * v)) by (nonlinear_arith)
        requires
            a == v * s,
    ;
    assert(b * b == 4 * ((d * d) * (n * n))) by (nonlinear_arith)
        requires
            b == n * (2 * d),
    ;
    assert(a * b == 2 * ((s * d) * (v * n))) by (nonlinear_arith)
        requires
            a == v * s,
            b == n * (2 * d),
    ;
}

/// Reflection keeps the length: before rounding, the mirror image of `v` is
/// exactly as long as `v`.
pub proof fn lemma_reflection_preserves_norm(v: Vector, n: Vector)
    ensures
        reflection_numerator(v, n).norm_sq() == n.norm_sq() * n.norm_sq() * v.norm_sq(),
{
    let s = n.norm_sq();
    let d = v.dot(n);
    let r = reflection_numerator(v, n);
    lemma_square_of_difference(v.x, s, n.x, d);
    lemma_square_of_difference(v.y, s, n.y, d);
    let ss = s * s;
    let sd = s * d;
    let dd = d * d;
    let vx = v.x * v.x;
    let vy = v.y * v.y;
    let nx = n.x * n.x;
    let ny = n.y * n.y;
    let px = v.x * n.x;
    let py = v.y * n.y;
    assert(r.x * r.x == ss * vx - 4 * (sd * px) + 4 * (dd * nx));
    assert(r.y * r.y == ss * vy - 4 * (sd * py) + 4 * (dd * ny));
    assert(ss * vx + ss * vy == ss * (vx + vy)) by (nonlinear_arith);
    assert(sd * px + sd * py == sd * d) by (nonlinear_arith)
        requires
            d == px + py,
    ;
    assert(dd * nx + dd * ny == dd * s) by (nonlinear_arith)
        requires
            s == nx + ny,
    ;
    assert(sd * d == dd * s) by (nonlinear_arith)
        requires
            sd == s * d,
            dd == d * d,
    ;
    assert(s * s * v.norm_sq() == ss * (vx + vy));
}

/// Reflection turns the component along the normal around: before rounding,
/// the mirror image has the opposite scalar product with `n`.
pub proof fn lemma_reflection_flips_normal_part(v: Vector, n: Vector)
    ensures
        reflection_numerator(v, n).dot(n) == -(n.norm_sq() * v.dot(n)),
{
    let s = n.norm_sq();
    let d = v.dot(n);
    let r = reflection_numerator(v, n);
    let px = v.x * n.x;
    let py = v.y * n.y;
    let nx = n.x * n.x;
    let ny = n.y * n.y;
    assert(r.x * n.x == s * px - 2 * (d * nx)) by (nonlinear_arith)
        requires
            r.x == v.x * s - n.x * (2 * d),
            px == v.x * n.x,
            nx == n.x * n.x,
    ;
    assert(r.y * n.y == s * py - 2 * (d * ny)) by (nonlinear_arith)
        requires
            r.y == v.y * s - n.y * (2 * d),
            py == v.y * n.y,
            ny == n.y * n.y,
    ;
    assert(s * px + s * py == s * d) by (nonlinear_arith)
        requires
            d == px + py,
    ;
    assert(d * nx + d * ny == s * d) by (nonlinear_arith)
        requires
            s == nx + ny,
    ;
}

/// A reflected velocity is never longer than the velocity was: rounding
/// takes energy away, it adds none.
pub proof fn lemma_reflected_no_longer(v: Vector, n: Vector)
    requires
        n != Vector::zero(),
    ensures
        reflected(v, n).norm_sq() <= v.norm_sq(),
{
    let s = n.norm_sq();
    assert(s >= 1) by (nonlinear_arith)
        requires
            s == n.x * n.x + n.y * n.y,
            n.x != 0 || n.y != 0,
    ;
    let r = reflection_numerator(v, n);
    let q = reflected(v, n);
    lemma_reflection_preserves_norm(v, n);
    lemma_div_toward_zero_square(r.x, s);
    lemma_div_toward_zero_square(r.y, s);
    let a = q.x * q.x;
    let b = q.y * q.y;
    let m = s * s;
    let k = v.norm_sq();
    assert((a + b) * m <= m * k) by (nonlinear_arith)
        requires
            a * m <= r.x * r.x,
            b * m <= r.y * r.y,
            r.x * r.x + r.y * r.y == m * k,
    ;
    assert(a + b <= k) by (nonlinear_arith)
        requires
            (a + b) * m <= m * k,
            m == s * s,
            s >= 1,
    ;
}

/// The square of a dividend is less than the square of the divisor times
/// the square of the quotient lengthened by one.
proof fn lemma_div_toward_zero_square_above(a: int, b: int)
    requires
        b > 0,
    ensures
        a * a <= (crate::math::div_toward_zero(a, b) * crate::math::div_toward_zero(a, b) + 2
            * vstd::math::abs(crate::math::div_toward_zero(a, b)) + 1) * (b * b),
{
    crate::math::lemma_div_toward_zero(a, b);
    let q = crate::math::div_toward_zero(a, b);
    let m = vstd::math::abs(q);
    let n = vstd::math::abs(a);
    assert(0 <= n < (m + 1) * b) by (nonlinear_arith)
        requires
            b > 0,
            a >= 0 ==> 0 <= q * b <= a < (q + 1) * b,
            a <= 0 ==> (q - 1) * b < a <= q * b <= 0,
            m == (if q >= 0 { q } else { -q }),
            n == (if a >= 0 { a } else { -a }),
    ;
    assert(n * n <= ((m + 1) * b) * ((m + 1) * b)) by (nonlinear_arith)
        requires
            0 <= n < (m + 1) * b,
    ;
    assert(((m + 1) * b) * ((m + 1) * b) == (m * m + 2 * m + 1) * (b * b)) by (nonlinear_arith);
    assert(n * n == a * a) by (nonlinear_arith)
        requires
            n == a || n == -a,
    ;
    assert(m * m == q * q) by (nonlinear_arith)
        requires
            m == q || m == -q,
    ;
}

/// Rounding takes little away: a velocity is no longer than its mirror
/// image would be with each component one longer.
pub proof fn lemma_reflected_not_much_shorter(v: Vector, n: Vector)
    requires
        n != Vector::zero(),
    ensures
        v.norm_sq() <= reflected(v, n).norm_sq() + 2 * (vstd::math::abs(reflected(v, n).x)
            + vstd::math::abs(reflected(v, n).y)) + 2,
{
    let s = n.norm_sq();
    assert(s >= 1) by (nonlinear_arith)
        requires
            s == n.x * n.x + n.y * n.y,
            n.x != 0 || n.y != 0,
    ;
    let r = reflection_numerator(v, n);
    let q = reflected(v, n);
    lemma_reflection_preserves_norm(v, n);
    lemma_div_toward_zero_square_above(r.x, s);
    lemma_div_toward_zero_square_above(r.y, s);
    let a = q.x * q.x + 2 * vstd::math::abs(q.x) + 1;
    let b = q.y * q.y + 2 * vstd::math::abs(q.y) + 1;
    let m = s * s;
    let k = v.norm_sq();
    assert(m * k <= (a + b) * m) by (nonlinear_arith)
        requires
            r.x * r.x <= a * m,
            r.y * r.y <= b * m,
            r.x * r.x + r.y * r.y == m * k,
    ;
    assert(k <= a + b) by (nonlinear_arith)
        requires
            m * k <= (a + b) * m,
            m == s * s,
            s >= 1,
    ;
}

/// The mirror image of `velocity` at the line with normal `(nx, ny)`.
pub(crate) fn reflect(velocity: Vec2, nx: i64, ny: i64) -> (r: Option<Vec2>)
    requires
        nx != 0 || ny != 0,
        -0x1_0000_0000 <= nx <= 0x1_0000_0000,
        -0x1_0000_0000 <= ny <= 0x1_0000_0000,
    ensures
        r == narrowed(reflected(velocity@, vector(nx as int, ny as int))),
{
    let vx: i128 = velocity.x as i128;
    let vy: i128 = velocity.y as i128;
    let x: i128 = nx as i128;
    let y: i128 = ny as i128;
    assert(0 <= x * x <= 0x1_0000_0000_0000_0000 && 0 <= y * y <= 0x1_0000_0000_0000_0000 && 1 <= x
        * x + y * y) by (nonlinear_arith)
        requires
            x != 0 || y != 0,
            -0x1_0000_0000 <= x <= 0x1_0000_0000,
            -0x1_0000_0000 <= y <= 0x1_0000_0000,
    ;
    let s: i128 = x * x + y * y;
    assert(-0x8000_0000_0000_0000 <= vx * x <= 0x8000_0000_0000_0000 && -0x8000_0000_0000_0000
        <= vy * y <= 0x8000_0000_0000_0000) by (nonlinear_arith)
        requires
            -0x8000_0000 <= vx <= 0x8000_0000,
            -0x8000_0000 <= vy <= 0x8000_0000,
            -0x1_0000_0000 <= x <= 0x1_0000_0000,
            -0x1_0000_0000 <= y <= 0x1_0000_0000,
    ;
    let d: i128 = vx * x + vy * y;
    let d2: i128 = 2 * d;
    assert(-0x2_0000_0000_0000_0000_0000_0000 <= x * d2 <= 0x2_0000_0000_0000_0000_0000_0000
        && -0x2_0000_0000_0000_0000_0000_0000 <= y * d2 <= 0x2_0000_0000_0000_0000_0000_0000)
        by (nonlinear_arith)
        requires
            -0x2_0000_0000_0000_0000 <= d2 <= 0x2_0000_0000_0000_0000,
            -0x1_0000_0000 <= x <= 0x1_0000_0000,
            -0x1_0000_0000 <= y <= 0x1_0000_0000,
    ;
    assert(-0x1_0000_0000_0000_0000_0000_0000 <= vx * s <= 0x1_0000_0000_0000_0000_0000_0000
        && -0x1_0000_0000_0000_0000_0000_0000 <= vy * s <= 0x1_0000_0000_0000_0000_0000_0000)
        by (nonlinear_arith)
        requires
            -0x8000_0000 <= vx <= 0x8000_0000,
            -0x8000_0000 <= vy <= 0x8000_0000,
            0 <= s <= 0x2_0000_0000_0000_0000,
    ;
    let rx: i128 = vx * s - x * d2;
    let ry: i128 = vy * s - y * d2;
    narrow(div_round_zero(rx, s), div_round_zero(ry, s))
}

/// The mirror image of `velocity` at the line with normal `normal`, each
/// component rounded toward zero; for a unit normal, `v - 2 (v . n) n`.
/// `None` where the normal is zero or the image is not representable.
pub fn reflect_velocity(velocity: Vec2, normal: Vec2) -> (r: Option<Vec2>)
    ensures
        r == (if normal@ == Vector::zero() {
            None
        } else {
            narrowed(reflected(velocity@, normal@))
        }),
{
    if normal.x == 0 && normal.y == 0 {
        None
    } else {
        reflect(velocity, normal.x as i64, normal.y as i64)
    }
}

/// The entity as the boundary leaves it. An entity without a velocity, or
/// one no farther from the center than the radius, stays as it is. One
/// farther out is put back on the ray from the center through its position,
/// at the radius less [`BOUNDARY_EPSILON`], and its velocity is mirrored at
/// the boundary there. `None` where the new state is not representable.
pub open spec fn contained(e: Entity, b: MapBoundary) -> Option<Entity> {
    match e.velocity {
        Some(v) => {
            let d = e.transform.translation@.minus(b.center@);
            if b.excludes(e.transform.translation@) {
                match (
                    narrowed(b.center@.plus(d.rescaled(b.radius - BOUNDARY_EPSILON))),
                    narrowed(reflected(v.0@, d)),
                ) {
                    (Some(p), Some(w)) => Some(
                        Entity {
                            transform: Transform { translation: p, ..e.transform },
                            velocity: Some(Velocity(w)),
                            ..e
                        },
                    ),
                    _ => None,
                }
            } else {
                Some(e)
            }
        },
        None => Some(e),
    }
}

/// Puts the entity back inside the boundary where it has left it.
pub fn contain(e: Entity, b: MapBoundary) -> (r: Option<Entity>)
    ensures
        r == contained(e, b),
{
    match e.velocity {
        Some(v) => {
            let dx: i64 = e.transform.translation.x as i64 - b.center.x as i64;
            let dy: i64 = e.transform.translation.y as i64 - b.center.y as i64;
            let x: i128 = dx as i128;
            let y: i128 = dy as i128;
            let radius: i128 = b.radius as i128;
            assert(0 <= x * x <= 0x1_0000_0000_0000_0000 && 0 <= y * y <= 0x1_0000_0000_0000_0000)
                by (nonlinear_arith)
                requires
                    -0x1_0000_0000 <= x <= 0x1_0000_0000,
                    -0x1_0000_0000 <= y <= 0x1_0000_0000,
            ;
            assert(0 <= radius * radius <= 0x4000_0000_0000_0000) by (nonlinear_arith)
                requires
                    -0x8000_0000 <= radius <= 0x8000_0000,
            ;
            if x * x + y * y > radius * radius {
                let q = rescale(dx, dy, b.radius as i64 - BOUNDARY_EPSILON as i64);
                let place = narrow(b.center.x as i128 + q.0, b.center.y as i128 + q.1);
                let bounce = reflect(v.0, dx, dy);
                match (place, bounce) {
                    (Some(p), Some(w)) => Some(
                        Entity {
                            transform: Transform { translation: p, ..e.transform },
                            velocity: Some(Velocity(w)),
                            ..e
                        },
                    ),
                    _ => None,
                }
            } else {
                Some(e)
            }
        },
        None => Some(e),
    }
}

/// Containment changes nothing that is inside, and what it has put back is
/// inside: applied a second time it changes nothing. Afterwards every entity
/// that has a velocity is inside.
pub proof fn lemma_containment_idempotent(e: Entity, b: MapBoundary)
    requires
        b.valid(),
    ensures
        !b.excludes(e.transform.translation@) ==> contained(e, b) == Some(e),
        contained(e, b) matches Some(x) ==> contained(x, b) == Some(x),
        contained(e, b) matches Some(x) ==> e.velocity is Some ==> !b.excludes(
            x.transform.translation@,
        ),
{
    if e.velocity is Some && b.excludes(e.transform.translation@) {
        if let Some(x) = contained(e, b) {
            let d = e.transform.translation@.minus(b.center@);
            let reach = b.radius - BOUNDARY_EPSILON;
            assert(d != Vector::zero()) by (nonlinear_arith)
                requires
                    d.x * d.x + d.y * d.y > b.radius * b.radius,
            ;
            lemma_rescaled_within(d, reach);
            let q = d.rescaled(reach);
            assert(x.transform.translation@.minus(b.center@) == q);
            assert(reach * reach <= b.radius * b.radius) by (nonlinear_arith)
                requires
                    0 <= reach <= b.radius,
            ;
        }
    }
}

/// Puts every entity that has a velocity and has left the boundary back
/// inside it, and mirrors its velocity at the boundary. Where a new state is
/// not representable the world stays as it was.
pub fn map_boundary_system(world: &mut World) -> (r: Result<(), PhysicsError>)
    requires
        old(world).wf(),
    ensures
        final(world).wf(),
        final(world).boundary() == old(world).boundary(),
        r == (if Pass::Contain.passes(old(world)@, old(world).boundary()) {
            Ok::<(), PhysicsError>(())
        } else {
            Err(PhysicsError::Overflow)
        }),
        final(world)@ == (if r.is_ok() {
            Pass::Contain.passed(old(world)@, old(world).boundary())
        } else {
            old(world)@
        }),
{
    world.apply(&Pass::Contain)
}

/// The boundary of the game: a circle of [`MAP_RADIUS`] around the origin.
pub open spec fn default_boundary() -> MapBoundary {
    MapBoundary { center: Vec2 { x: 0, y: 0 }, radius: MAP_RADIUS }
}

/// An empty world inside the boundary of the game.
pub fn setup() -> (world: World)
    ensures
        world.wf(),
        world@.len() == 0,
        world.boundary() == default_boundary(),
{
    World::inside(MapBoundary { center: Vec2::zero(), radius: MAP_RADIUS })
}

/// The containment stage changes nothing when it is carried out a second
/// time.
pub proof fn lemma_boundary_stage_idempotent(slots: crate::world::Slots, b: MapBoundary)
    requires
        b.valid(),
        Pass::Contain.passes(slots, b),
    ensures
        Pass::Contain.passes(Pass::Contain.passed(slots, b), b),
        Pass::Contain.passed(Pass::Contain.passed(slots, b), b) == Pass::Contain.passed(slots, b),
{
    let once = Pass::Contain.passed(slots, b);
    assert forall|i: int| 0 <= i < once.len() implies (#[trigger] once[i] matches Some(e)
        ==> !(Pass::Contain.outcome(e, once, b) is Overflow)) && Pass::Contain.slot_outcome(
        once[i],
        once,
        b,
    ) == once[i] by {
        if let Some(e) = slots[i] {
            lemma_containment_idempotent(e, b);
        }
    }
    assert(Pass::Contain.passed(once, b) =~= once);
}

} // verus!
