//! Collision layers, hit boxes and colliders.

use vstd::prelude::*;
use crate::math::Vec2;
use crate::math::Vector;
use crate::math::mul_wide;
use crate::math::rescale;
use crate::math::UNIT;
use crate::stage::Pass;
use crate::world::Entity;
use crate::world::EntityId;
use crate::world::PhysicsError;
use crate::world::Slots;
use crate::world::Transform;
use crate::world::World;

verus! {

/// The category of a collider; it decides which pairs may collide.
#[derive(Clone, Copy, Debug, PartialEq, Eq)]
pub enum CollisionLayer {
    Player,
    Enemy,
    PlayerProjectile,
    EnemyProjectile,
}

impl CollisionLayer {
    /// The fixed compatibility table: player projectiles meet enemies, enemy
    /// projectiles meet the player and each other, in either order.
    pub open spec fn collides_with(self, other: CollisionLayer) -> bool {
        match (self, other) {
            (CollisionLayer::PlayerProjectile, CollisionLayer::Enemy) => true,
            (CollisionLayer::Enemy, CollisionLayer::PlayerProjectile) => true,
            (CollisionLayer::EnemyProjectile, CollisionLayer::Player) => true,
            (CollisionLayer::Player, CollisionLayer::EnemyProjectile) => true,
            (CollisionLayer::EnemyProjectile, CollisionLayer::EnemyProjectile) => true,
            _ => false,
        }
    }

    /// Whether colliders of these two layers may collide.
    pub fn should_collide(&self, other: &CollisionLayer) -> (r: bool)
        ensures
            r == self.collides_with(*other),
    {
        match (self, other) {
            (CollisionLayer::PlayerProjectile, CollisionLayer::Enemy) => true,
            (CollisionLayer::Enemy, CollisionLayer::PlayerProjectile) => true,
            (CollisionLayer::EnemyProjectile, CollisionLayer::Player) => true,
            (CollisionLayer::Player, CollisionLayer::EnemyProjectile) => true,
            (CollisionLayer::EnemyProjectile, CollisionLayer::EnemyProjectile) => true,
            _ => false,
        }
    }
}

/// The compatibility table is symmetric, and it holds exactly the pairs
/// player projectile and enemy, enemy projectile and player, and enemy
/// projectile with enemy projectile.
pub proof fn lemma_collision_table(a: CollisionLayer, b: CollisionLayer)
    ensures
        a.collides_with(b) == b.collides_with(a),
        a.collides_with(b) <==> {
            ||| (a is PlayerProjectile && b is Enemy)
            ||| (a is Enemy && b is PlayerProjectile)
            ||| (a is EnemyProjectile && b is Player)
            ||| (a is Player && b is EnemyProjectile)
            ||| (a is EnemyProjectile && b is EnemyProjectile)
        },
{
}

/// A circle given by its center and radius.
#[derive(Clone, Copy, Debug, PartialEq, Eq)]
pub struct BoundingCircle {
    pub center: Vec2,
    pub radius: i32,
}

/// An axis-aligned box given by its center and half extents.
#[derive(Clone, Copy, Debug, PartialEq, Eq)]
pub struct Aabb2d {
    pub center: Vec2,
    pub half_size: Vec2,
}

/// The shape used for intersection tests.
#[derive(Clone, Copy, Debug, PartialEq, Eq)]
pub enum HitBox {
    Circle(BoundingCircle),
    Aabb(Aabb2d),
}

/// `x` limited to the interval from `lo` to `hi`.
pub open spec fn clamped(x: int, lo: int, hi: int) -> int {
    if x < lo {
        if lo < hi { lo } else { hi }
    } else if x < hi {
        x
    } else {
        hi
    }
}

impl BoundingCircle {
    /// Two circles meet where the distance of their centers is at most the
    /// sum of their radii.
    pub open spec fn meets_circle(self, other: BoundingCircle) -> bool {
        self.center@.minus(other.center@).norm_sq() <= (self.radius + other.radius) * (self.radius
            + other.radius)
    }

    /// A circle meets a box where the point of the box closest to the
    /// circle's center is at most a radius away from it.
    pub open spec fn meets_box(self, other: Aabb2d) -> bool {
        self.center@.minus(other.closest_point(self.center@)).norm_sq() <= self.radius
            * self.radius
    }
}

impl Aabb2d {
    pub open spec fn min(self) -> Vector {
        self.center@.minus(self.half_size@)
    }

    pub open spec fn max(self) -> Vector {
        self.center@.plus(self.half_size@)
    }

    /// The point of the box that is closest to `p`.
    pub open spec fn closest_point(self, p: Vector) -> Vector {
        Vector {
            x: clamped(p.x, self.min().x, self.max().x),
            y: clamped(p.y, self.min().y, self.max().y),
        }
    }

    /// Two boxes meet where their extents overlap on both axes.
    pub open spec fn meets_box(self, other: Aabb2d) -> bool {
        &&& self.min().x <= other.max().x
        &&& self.max().x >= other.min().x
        &&& self.min().y <= other.max().y
        &&& self.max().y >= other.min().y
    }
}

impl HitBox {
    /// Whether the two shapes have a point in common.
    pub open spec fn meets(self, other: HitBox) -> bool {
        match (self, other) {
            (HitBox::Circle(a), HitBox::Circle(b)) => a.meets_circle(b),
            (HitBox::Aabb(a), HitBox::Aabb(b)) => a.meets_box(b),
            (HitBox::Circle(c), HitBox::Aabb(a)) => c.meets_box(a),
            (HitBox::Aabb(a), HitBox::Circle(c)) => c.meets_box(a),
        }
    }

    /// A circle of the given base radius, scaled by `scale` thousandths.
    pub open spec fn circle_at(center: Vec2, scale: i32, radius: i32) -> Option<HitBox> {
        let r = crate::math::div_toward_zero(radius * scale, crate::math::UNIT as int);
        if crate::math::fits(r) {
            Some(HitBox::Circle(BoundingCircle { center, radius: r as i32 }))
        } else {
            None
        }
    }

    /// A box of the given base half extents, scaled per axis by `scale`
    /// thousandths.
    pub open spec fn box_at(center: Vec2, scale: Vec2, half_size: Vec2) -> Option<HitBox> {
        let h = Vector { x: half_size.x * scale.x, y: half_size.y * scale.y }.over(
            crate::math::UNIT as int,
        );
        match crate::math::narrowed(h) {
            Some(half) => Some(HitBox::Aabb(Aabb2d { center, half_size: half })),
            None => None,
        }
    }

    /// The circle at `center` whose radius is `radius` scaled by `scale`, or
    /// `None` where that radius is not representable.
    pub fn new_circle(center: Vec2, scale: i32, radius: i32) -> (r: Option<HitBox>)
        ensures
            r == HitBox::circle_at(center, scale, radius),
    {
        let scaled: i128 = crate::math::div_round_zero(mul_wide(radius, scale) as i128, 1000);
        if -0x8000_0000 <= scaled && scaled <= 0x7fff_ffff {
            Some(HitBox::Circle(BoundingCircle { center, radius: scaled as i32 }))
        } else {
            None
        }
    }

    /// The box at `center` whose half extents are `half_size` scaled per axis
    /// by `scale`, or `None` where they are not representable.
    pub fn new_aabb(center: Vec2, scale: Vec2, half_size: Vec2) -> (r: Option<HitBox>)
        ensures
            r == HitBox::box_at(center, scale, half_size),
    {
        let x: i128 = crate::math::div_round_zero(mul_wide(half_size.x, scale.x) as i128, 1000);
        let y: i128 = crate::math::div_round_zero(mul_wide(half_size.y, scale.y) as i128, 1000);
        match crate::math::narrow(x, y) {
            Some(half) => Some(HitBox::Aabb(Aabb2d { center, half_size: half })),
            None => None,
        }
    }

    /// Whether the two shapes have a point in common.
    pub fn intersects(&self, other: &HitBox) -> (r: bool)
        ensures
            r == self.meets(*other),
    {
        match (self, other) {
            (HitBox::Circle(a), HitBox::Circle(b)) => circles_meet(a, b),
            (HitBox::Aabb(a), HitBox::Aabb(b)) => boxes_meet(a, b),
            (HitBox::Circle(c), HitBox::Aabb(a)) => circle_meets_box(c, a),
            (HitBox::Aabb(a), HitBox::Circle(c)) => circle_meets_box(c, a),
        }
    }
}

fn circles_meet(a: &BoundingCircle, b: &BoundingCircle) -> (r: bool)
    ensures
        r == a.meets_circle(*b),
{
    let dx: i64 = a.center.x as i64 - b.center.x as i64;
    let dy: i64 = a.center.y as i64 - b.center.y as i64;
    let reach: i64 = a.radius as i64 + b.radius as i64;
    square(dx) + square(dy) <= square(reach)
}

fn boxes_meet(a: &Aabb2d, b: &Aabb2d) -> (r: bool)
    ensures
        r == a.meets_box(*b),
{
    let a_min_x: i64 = a.center.x as i64 - a.half_size.x as i64;
    let a_max_x: i64 = a.center.x as i64 + a.half_size.x as i64;
    let a_min_y: i64 = a.center.y as i64 - a.half_size.y as i64;
    let a_max_y: i64 = a.center.y as i64 + a.half_size.y as i64;
    let b_min_x: i64 = b.center.x as i64 - b.half_size.x as i64;
    let b_max_x: i64 = b.center.x as i64 + b.half_size.x as i64;
    let b_min_y: i64 = b.center.y as i64 - b.half_size.y as i64;
    let b_max_y: i64 = b.center.y as i64 + b.half_size.y as i64;
    a_min_x <= b_max_x && a_max_x >= b_min_x && a_min_y <= b_max_y && a_max_y >= b_min_y
}

fn circle_meets_box(c: &BoundingCircle, a: &Aabb2d) -> (r: bool)
    ensures
        r == c.meets_box(*a),
{
    let near_x: i64 = clamp(
        c.center.x as i64,
        a.center.x as i64 - a.half_size.x as i64,
        a.center.x as i64 + a.half_size.x as i64,
    );
    let near_y: i64 = clamp(
        c.center.y as i64,
        a.center.y as i64 - a.half_size.y as i64,
        a.center.y as i64 + a.half_size.y as i64,
    );
    let dx: i64 = c.center.x as i64 - near_x;
    let dy: i64 = c.center.y as i64 - near_y;
    square(dx) + square(dy) <= square(c.radius as i64)
}

fn clamp(x: i64, lo: i64, hi: i64) -> (r: i64)
    ensures
        r == clamped(x as int, lo as int, hi as int),
{
    if x < lo {
        if lo < hi { lo } else { hi }
    } else if x < hi {
        x
    } else {
        hi
    }
}

/// The square of a number of magnitude at most `2^34`.
fn square(x: i64) -> (r: i128)
    requires
        -0x4_0000_0000 <= x <= 0x4_0000_0000,
    ensures
        r == x * x,
        0 <= r <= 0x10_0000_0000_0000_0000,
{
    assert(0 <= x * x <= 0x10_0000_0000_0000_0000) by (nonlinear_arith)
        requires
            -0x4_0000_0000 <= x <= 0x4_0000_0000,
    ;
    (x as i128) * (x as i128)
}

/// The collision shape of an entity, with its layer and base size.
#[derive(Clone, Copy, Debug, PartialEq, Eq)]
pub struct Collider {
    pub layer: CollisionLayer,
    /// Half extents before scaling; a circle keeps its radius in both.
    pub size: Vec2,
    /// The current shape, derived from the transform each step.
    pub hit_box: HitBox,
}

impl Collider {
    /// A box collider with the given half extents, placed at the origin.
    pub fn new_aabb(layer: CollisionLayer, half_size: Vec2) -> (r: Collider)
        ensures
            r.layer == layer,
            r.size == half_size,
            r.hit_box == HitBox::Aabb(Aabb2d { center: Vec2 { x: 0, y: 0 }, half_size }),
    {
        Collider {
            layer,
            size: half_size,
            hit_box: HitBox::Aabb(Aabb2d { center: Vec2::zero(), half_size }),
        }
    }

    /// A circle collider with the given radius, placed at the origin.
    pub fn new_circle(layer: CollisionLayer, radius: i32) -> (r: Collider)
        ensures
            r.layer == layer,
            r.size == (Vec2 { x: radius, y: radius }),
            r.hit_box == HitBox::Circle(BoundingCircle { center: Vec2 { x: 0, y: 0 }, radius }),
    {
        Collider {
            layer,
            size: Vec2::new(radius, radius),
            hit_box: HitBox::Circle(BoundingCircle { center: Vec2::zero(), radius }),
        }
    }

    /// Whether the base size is well formed: no negative extent.
    pub open spec fn valid(self) -> bool {
        self.size.x >= 0 && self.size.y >= 0
    }
}

/// The collider with its shape derived anew from `t`: centered at the
/// translation, its base size scaled by the scale. The kind of shape stays.
/// `None` where the scaled size is not representable.
pub open spec fn refreshed(c: Collider, t: Transform) -> Option<Collider> {
    let shape = match c.hit_box {
        HitBox::Aabb(_) => HitBox::box_at(t.translation, t.scale, c.size),
        HitBox::Circle(_) => HitBox::circle_at(t.translation, t.scale.x, c.size.x),
    };
    match shape {
        Some(h) => Some(Collider { hit_box: h, ..c }),
        None => None,
    }
}

/// The entity with its collider, if it has one, derived anew from its
/// transform.
pub open spec fn collider_refreshed(e: Entity) -> Option<Entity> {
    match e.collider {
        Some(c) => match refreshed(c, e.transform) {
            Some(next) => Some(Entity { collider: Some(next), ..e }),
            None => None,
        },
        None => Some(e),
    }
}

/// Deriving the shape anew changes neither its kind nor the layer nor the
/// base size of the collider.
pub proof fn lemma_refresh_keeps_kind(c: Collider, t: Transform)
    requires
        refreshed(c, t) is Some,
    ensures
        refreshed(c, t).unwrap().layer == c.layer,
        refreshed(c, t).unwrap().size == c.size,
        refreshed(c, t).unwrap().hit_box is Circle <==> c.hit_box is Circle,
{
}

/// Derives the shape of the entity's collider from its transform.
pub fn refresh_collider(e: Entity) -> (r: Option<Entity>)
    ensures
        r == collider_refreshed(e),
{
    match e.collider {
        Some(c) => {
            let shape = match c.hit_box {
                HitBox::Aabb(_) => HitBox::new_aabb(e.transform.translation, e.transform.scale, c.size),
                HitBox::Circle(_) => HitBox::new_circle(
                    e.transform.translation,
                    e.transform.scale.x,
                    c.size.x,
                ),
            };
            match shape {
                Some(h) => Some(Entity { collider: Some(Collider { hit_box: h, ..c }), ..e }),
                None => None,
            }
        },
        None => Some(e),
    }
}

/// Derives the shape of every collider from the transform of its entity.
/// Where a scaled size is not representable the world stays as it was.
pub fn update_hitbox_positions(world: &mut World) -> (r: Result<(), PhysicsError>)
    requires
        old(world).wf(),
    ensures
        final(world).wf(),
        final(world).boundary() == old(world).boundary(),
        r == (if Pass::RefreshColliders.passes(old(world)@, old(world).boundary()) {
            Ok::<(), PhysicsError>(())
        } else {
            Err(PhysicsError::Overflow)
        }),
        final(world)@ == (if r.is_ok() {
            Pass::RefreshColliders.passed(old(world)@, old(world).boundary())
        } else {
            old(world)@
        }),
{
    world.apply(&Pass::RefreshColliders)
}

/// A collision found in one step: the two participants, their velocities
/// when it was found, and the unit normal that points from the first to the
/// second, in thousandths.
#[derive(Clone, Copy, Debug, PartialEq, Eq)]
pub struct CollisionEvent {
    pub entity1: EntityId,
    pub entity2: EntityId,
    pub velocity1: Vec2,
    pub velocity2: Vec2,
    pub normal: Vec2,
}

/// The unit vector, in thousandths, that points from `a` to `b`; along the
/// first axis where the two points are one.
pub open spec fn normal_between(a: Vector, b: Vector) -> Vec2 {
    if a == b {
        Vec2 { x: UNIT, y: 0 }
    } else {
        let q = b.minus(a).rescaled(UNIT as int);
        Vec2 { x: q.x as i32, y: q.y as i32 }
    }
}

/// The unit vector, in thousandths, that points from `a` to `b`; along the
/// first axis where the two points are one.
pub fn normal_from(a: Vec2, b: Vec2) -> (r: Vec2)
    ensures
        r == normal_between(a@, b@),
        a@ != b@ ==> r@ == b@.minus(a@).rescaled(UNIT as int),
        -UNIT <= r.x <= UNIT,
        -UNIT <= r.y <= UNIT,
{
    let dx: i64 = b.x as i64 - a.x as i64;
    let dy: i64 = b.y as i64 - a.y as i64;
    if dx == 0 && dy == 0 {
        Vec2 { x: UNIT, y: 0 }
    } else {
        let q = rescale(dx, dy, UNIT as i64);
        Vec2 { x: q.0 as i32, y: q.1 as i32 }
    }
}

/// Whether two entities collide: both have a collider and a velocity, their
/// layers may collide, and their shapes meet.
pub open spec fn collide(a: Entity, b: Entity) -> bool {
    &&& a.velocity is Some
    &&& b.velocity is Some
    &&& a.collider matches Some(ca)
    &&& b.collider matches Some(cb)
    &&& ca.layer.collides_with(cb.layer)
    &&& ca.hit_box.meets(cb.hit_box)
}

/// The event of a collision between the entity `a` behind handle `i` and the
/// entity `b` behind handle `j`.
pub open spec fn event_of(i: int, a: Entity, j: int, b: Entity) -> CollisionEvent {
    CollisionEvent {
        entity1: EntityId(i as usize),
        entity2: EntityId(j as usize),
        velocity1: a.velocity.unwrap().0,
        velocity2: b.velocity.unwrap().0,
        normal: normal_between(a.transform.translation@, b.transform.translation@),
    }
}

/// The events of the pair of handles `i` and `j`: one where both entities
/// are there and collide, else none.
pub open spec fn pair_events(slots: Slots, i: int, j: int) -> Seq<CollisionEvent> {
    match (slots[i], slots[j]) {
        (Some(a), Some(b)) => if collide(a, b) {
            seq![event_of(i, a, j, b)]
        } else {
            Seq::empty()
        },
        _ => Seq::empty(),
    }
}

/// The events of the pairs of `i` with each handle after `i` and before
/// `end`, in rising order.
pub open spec fn row_events(slots: Slots, i: int, end: int) -> Seq<CollisionEvent>
    decreases end - i,
{
    if end <= i + 1 {
        Seq::empty()
    } else {
        row_events(slots, i, end - 1) + pair_events(slots, i, end - 1)
    }
}

/// The events of all pairs whose first handle is before `i`.
pub open spec fn events_before(slots: Slots, i: int) -> Seq<CollisionEvent>
    decreases i,
{
    if i <= 0 {
        Seq::empty()
    } else {
        events_before(slots, i - 1) + row_events(slots, i - 1, slots.len() as int)
    }
}

/// The events of a step: one for each pair of entities that collide, each
/// unordered pair taken once with the lower handle first, ordered by first
/// and then by second handle.
pub open spec fn collisions(slots: Slots) -> Seq<CollisionEvent> {
    events_before(slots, slots.len() as int)
}

/// Whether two entities collide.
pub fn entities_collide(a: &Entity, b: &Entity) -> (r: bool)
    ensures
        r == collide(*a, *b),
{
    match (a.collider, b.collider) {
        (Some(ca), Some(cb)) => a.velocity.is_some() && b.velocity.is_some()
            && ca.layer.should_collide(&cb.layer) && ca.hit_box.intersects(&cb.hit_box),
        _ => false,
    }
}

/// Tests every pair of entities once and reports those that collide.
pub fn detect_collisions(world: &World) -> (events: Vec<CollisionEvent>)
    ensures
        events@ == collisions(world@),
{
    let slots = world.slots();
    let n = slots.len();
    let mut events: Vec<CollisionEvent> = Vec::new();
    let mut i: usize = 0;
    while i < n
        invariant
            i <= n == slots.len(),
            events@ == events_before(slots@, i as int),
        decreases n - i,
    {
        let mut j: usize = i + 1;
        while j < n
            invariant
                i < j <= n == slots.len(),
                events@ == events_before(slots@, i as int) + row_events(slots@, i as int, j as int),
            decreases n - j,
        {
            let ghost before = events@;
            match (slots[i], slots[j]) {
                (Some(a), Some(b)) => {
                    if entities_collide(&a, &b) {
                        events.push(
                            CollisionEvent {
                                entity1: EntityId(i),
                                entity2: EntityId(j),
                                velocity1: a.velocity.unwrap().0,
                                velocity2: b.velocity.unwrap().0,
                                normal: normal_from(a.transform.translation, b.transform.translation),
                            },
                        );
                    }
                },
                _ => {},
            }
            assert(events@ =~= before + pair_events(slots@, i as int, j as int));
            j = j + 1;
        }
        i = i + 1;
    }
    events
}

/// Where an event among the pairs of `i` comes from: the second handle of
/// its pair.
pub proof fn lemma_row_event_origin(slots: Slots, i: int, end: int, k: int) -> (j: int)
    requires
        0 <= k < row_events(slots, i, end).len(),
    ensures
        i < j < end,
        pair_events(slots, i, j) == seq![row_events(slots, i, end)[k]],
    decreases end - i,
{
    let earlier = row_events(slots, i, end - 1);
    if k < earlier.len() {
        lemma_row_event_origin(slots, i, end - 1, k)
    } else {
        assert(pair_events(slots, i, end - 1) =~= seq![row_events(slots, i, end)[k]]);
        end - 1
    }
}

/// Every event comes from a pair of entities that collide: the event at
/// `k` is the one event of a pair of handles, the lower one first.
pub proof fn lemma_event_origin(slots: Slots, n: int, k: int) -> (pair: (int, int))
    requires
        0 <= n <= slots.len(),
        0 <= k < events_before(slots, n).len(),
    ensures
        0 <= pair.0 < n,
        pair.0 < pair.1 < slots.len(),
        pair_events(slots, pair.0, pair.1) == seq![events_before(slots, n)[k]],
    decreases n,
{
    let earlier = events_before(slots, n - 1);
    if k < earlier.len() {
        lemma_event_origin(slots, n - 1, k)
    } else {
        let j = lemma_row_event_origin(slots, n - 1, slots.len() as int, k - earlier.len());
        (n - 1, j)
    }
}

/// The event of a pair is among the events of the pairs of its first handle.
pub proof fn lemma_row_holds_event(slots: Slots, i: int, end: int, j: int)
    requires
        i < j < end,
        pair_events(slots, i, j).len() == 1,
    ensures
        row_events(slots, i, end).contains(pair_events(slots, i, j)[0]),
    decreases end - i,
{
    let all = row_events(slots, i, end);
    let earlier = row_events(slots, i, end - 1);
    if j == end - 1 {
        assert(all[earlier.len() as int] == pair_events(slots, i, j)[0]);
    } else {
        lemma_row_holds_event(slots, i, end - 1, j);
        let k = choose|k: int| 0 <= k < earlier.len() && earlier[k] == pair_events(slots, i, j)[0];
        assert(all[k] == pair_events(slots, i, j)[0]);
    }
}

/// Every pair of entities that collide has its event.
pub proof fn lemma_event_reported(slots: Slots, n: int, i: int, j: int)
    requires
        0 <= i < n <= slots.len(),
        i < j < slots.len(),
        pair_events(slots, i, j).len() == 1,
    ensures
        events_before(slots, n).contains(pair_events(slots, i, j)[0]),
    decreases n,
{
    let all = events_before(slots, n);
    let earlier = events_before(slots, n - 1);
    let row = row_events(slots, n - 1, slots.len() as int);
    let ev = pair_events(slots, i, j)[0];
    if i == n - 1 {
        lemma_row_holds_event(slots, i, slots.len() as int, j);
        let k = choose|k: int| 0 <= k < row.len() && row[k] == ev;
        assert(all[earlier.len() + k] == ev);
    } else {
        lemma_event_reported(slots, n - 1, i, j);
        let k = choose|k: int| 0 <= k < earlier.len() && earlier[k] == ev;
        assert(all[k] == ev);
    }
}

/// Whether `ev` is the event of the pair of handles `i` and `j`, `i` being
/// the lower.
pub open spec fn is_event_of(slots: Slots, ev: CollisionEvent, i: int, j: int) -> bool {
    0 <= i < j < slots.len() && pair_events(slots, i, j) == seq![ev]
}

/// Whether `ev` is the event of some pair of entities in `slots` that
/// collide.
pub open spec fn has_origin(slots: Slots, ev: CollisionEvent) -> bool {
    exists|i: int, j: int| is_event_of(slots, ev, i, j)
}

/// The detector reports exactly the pairs that collide. Each event of a step
/// is the event of two entities that are in the world and collide, the one
/// with the lower handle first; and each two such entities have their event.
pub proof fn lemma_detection_exact(slots: Slots)
    ensures
        forall|k: int|
            0 <= k < collisions(slots).len() ==> has_origin(slots, #[trigger] collisions(slots)[k]),
        forall|i: int, j: int|
            0 <= i < j < slots.len() && (#[trigger] pair_events(slots, i, j)).len() == 1
                ==> collisions(slots).contains(pair_events(slots, i, j)[0]),
{
    assert forall|k: int| 0 <= k < collisions(slots).len() implies has_origin(
        slots,
        #[trigger] collisions(slots)[k],
    ) by {
        let pair = lemma_event_origin(slots, slots.len() as int, k);
        assert(is_event_of(slots, collisions(slots)[k], pair.0, pair.1));
    }
    assert forall|i: int, j: int|
        0 <= i < j < slots.len() && (#[trigger] pair_events(slots, i, j)).len()
            == 1 implies collisions(slots).contains(pair_events(slots, i, j)[0]) by {
        lemma_event_reported(slots, slots.len() as int, i, j);
    }
}

/// Whether the pair of `a` comes before the pair of `b`: by first handle,
/// then by second.
pub open spec fn precedes(a: CollisionEvent, b: CollisionEvent) -> bool {
    a.entity1.0 < b.entity1.0 || (a.entity1.0 == b.entity1.0 && a.entity2.0 < b.entity2.0)
}

/// The handles of an event are those of the pair it comes from.
pub proof fn lemma_event_handles(slots: Slots, ev: CollisionEvent, i: int, j: int)
    requires
        slots.len() <= usize::MAX,
        is_event_of(slots, ev, i, j),
    ensures
        ev.entity1.0 == i,
        ev.entity2.0 == j,
{
    assert(pair_events(slots, i, j)[0] == ev);
}

proof fn lemma_row_ordered(slots: Slots, i: int, end: int, k1: int, k2: int)
    requires
        0 <= i,
        end <= slots.len() <= usize::MAX,
        0 <= k1 < k2 < row_events(slots, i, end).len(),
    ensures
        precedes(row_events(slots, i, end)[k1], row_events(slots, i, end)[k2]),
    decreases end - i,
{
    let row = row_events(slots, i, end);
    let earlier = row_events(slots, i, end - 1);
    if k2 < earlier.len() {
        lemma_row_ordered(slots, i, end - 1, k1, k2);
    } else {
        let j1 = lemma_row_event_origin(slots, i, end - 1, k1);
        let j2 = lemma_row_event_origin(slots, i, end, k2);
        lemma_event_handles(slots, row[k1], i, j1);
        lemma_event_handles(slots, row[k2], i, j2);
        assert(pair_events(slots, i, end - 1) =~= seq![row[k2]]);
        lemma_event_handles(slots, row[k2], i, end - 1);
    }
}

proof fn lemma_events_before_ordered(slots: Slots, n: int, k1: int, k2: int)
    requires
        0 <= n <= slots.len() <= usize::MAX,
        0 <= k1 < k2 < events_before(slots, n).len(),
    ensures
        precedes(events_before(slots, n)[k1], events_before(slots, n)[k2]),
    decreases n,
{
    let all = events_before(slots, n);
    let earlier = events_before(slots, n - 1);
    if k2 < earlier.len() {
        lemma_events_before_ordered(slots, n - 1, k1, k2);
    } else {
        let j2 = lemma_row_event_origin(slots, n - 1, slots.len() as int, k2 - earlier.len());
        lemma_event_handles(slots, all[k2], n - 1, j2);
        if k1 < earlier.len() {
            let pair = lemma_event_origin(slots, n - 1, k1);
            lemma_event_handles(slots, all[k1], pair.0, pair.1);
        } else {
            lemma_row_ordered(
                slots,
                n - 1,
                slots.len() as int,
                k1 - earlier.len(),
                k2 - earlier.len(),
            );
        }
    }
}

/// No pair is reported twice: the events of a step are in the strict order
/// of their pairs of handles.
pub proof fn lemma_detection_once(slots: Slots, k1: int, k2: int)
    requires
        slots.len() <= usize::MAX,
        0 <= k1 < k2 < collisions(slots).len(),
    ensures
        precedes(collisions(slots)[k1], collisions(slots)[k2]),
{
    lemma_events_before_ordered(slots, slots.len() as int, k1, k2);
}

/// The normal between two places is a unit vector up to rounding: it is
/// never longer than one, and never zero.
pub proof fn lemma_normal_is_unit(a: Vector, b: Vector)
    ensures
        normal_between(a, b)@.norm_sq() <= UNIT * UNIT,
        normal_between(a, b)@ != Vector::zero(),
{
    if a != b {
        let d = b.minus(a);
        crate::math::lemma_rescaled_within(d, UNIT as int);
        crate::math::lemma_rescaled_not_zero(d, UNIT as int);
        let q = d.rescaled(UNIT as int);
        assert(-UNIT <= q.x <= UNIT && -UNIT <= q.y <= UNIT) by (nonlinear_arith)
            requires
                q.x * q.x + q.y * q.y <= UNIT * UNIT,
                UNIT == 1000,
        ;
    }
}

} // verus!
