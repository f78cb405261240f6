//! The entity store: stable handles, optional components, explicit removal.

use vstd::prelude::*;
use crate::collision::Collider;
use crate::enemy::Enemy;
use crate::gravity::GravitySource;
use crate::map::MapBoundary;
use crate::math::Vec2;
use crate::movement::Acceleration;
use crate::movement::Force;
use crate::movement::Mass;
use crate::movement::PhysicsBundle;
use crate::movement::Velocity;
use crate::player::Bullet;
use crate::player::LifeSpan;
use crate::player::Player;
use crate::player::Weapon;
use crate::stage::Outcome;
use crate::stage::Pass;

verus! {

/// Why a world or an entity was refused, or a step could not be taken.
#[derive(Clone, Copy, Debug, PartialEq, Eq)]
pub enum PhysicsError {
    /// A mass that is zero or negative.
    NonPositiveMass,
    /// A negative base size, or a boundary too small to hold anything.
    MalformedSize,
    /// A result that is not representable.
    Overflow,
}

/// The handle of an entity: its index in the store. A handle is never given
/// out twice.
#[derive(Clone, Copy, Debug, PartialEq, Eq)]
pub struct EntityId(pub usize);

/// Where an entity is, how it is scaled, and the layer it is drawn on.
#[derive(Clone, Copy, Debug, PartialEq, Eq)]
pub struct Transform {
    pub translation: Vec2,
    /// Scale per axis, in thousandths.
    pub scale: Vec2,
    /// Turn about the third axis, in thousandths of a degree; the
    /// simulation does not read it.
    pub rotation: i32,
    /// Draw order; the simulation does not read it.
    pub z: i32,
}

/// An entity: a transform and whichever other components it carries.
#[derive(Clone, Copy, Debug, PartialEq, Eq)]
pub struct Entity {
    pub transform: Transform,
    pub force: Option<Force>,
    pub mass: Option<Mass>,
    pub acceleration: Option<Acceleration>,
    pub velocity: Option<Velocity>,
    pub collider: Option<Collider>,
    pub gravity_source: Option<GravitySource>,
    pub player: Option<Player>,
    pub enemy: Option<Enemy>,
    pub bullet: Option<Bullet>,
    pub weapon: Option<Weapon>,
    pub life_span: Option<LifeSpan>,
}

/// The contents of a store: one slot per handle ever given out, empty once
/// its entity is removed.
pub type Slots = Seq<Option<Entity>>;

impl Transform {
    /// A transform at `translation`, unscaled, on layer zero.
    pub fn from_translation(translation: Vec2) -> (r: Transform)
        ensures
            r == (Transform { translation, scale: Vec2 { x: 1000, y: 1000 }, rotation: 0, z: 0 }),
    {
        Transform { translation, scale: Vec2::new(1000, 1000), rotation: 0, z: 0 }
    }
}

impl Entity {
    /// Whether the entity may enter a world: its mass, if any, is positive,
    /// and the base size of its collider, if any, is not negative.
    pub open spec fn valid(self) -> bool {
        &&& self.mass matches Some(m) ==> m.0 > 0
        &&& self.collider matches Some(c) ==> c.valid()
    }

    /// An entity with a transform and nothing else.
    pub fn new(transform: Transform) -> (r: Entity)
        ensures
            r == Entity::bare(transform),
    {
        Entity {
            transform,
            force: None,
            mass: None,
            acceleration: None,
            velocity: None,
            collider: None,
            gravity_source: None,
            player: None,
            enemy: None,
            bullet: None,
            weapon: None,
            life_span: None,
        }
    }

    pub open spec fn bare(transform: Transform) -> Entity {
        Entity {
            transform,
            force: None,
            mass: None,
            acceleration: None,
            velocity: None,
            collider: None,
            gravity_source: None,
            player: None,
            enemy: None,
            bullet: None,
            weapon: None,
            life_span: None,
        }
    }

    /// The entity with the four kinematic components of `bundle`.
    pub fn with_physics(self, bundle: PhysicsBundle) -> (r: Entity)
        ensures
            r == (Entity {
                force: Some(bundle.force),
                mass: Some(bundle.mass),
                acceleration: Some(bundle.acceleration),
                velocity: Some(bundle.velocity),
                ..self
            }),
    {
        Entity {
            force: Some(bundle.force),
            mass: Some(bundle.mass),
            acceleration: Some(bundle.acceleration),
            velocity: Some(bundle.velocity),
            ..self
        }
    }

    /// The entity with the given collider.
    pub fn with_collider(self, collider: Collider) -> (r: Entity)
        ensures
            r == (Entity { collider: Some(collider), ..self }),
    {
        Entity { collider: Some(collider), ..self }
    }
}

/// Whether every entity in `slots` is valid.
pub open spec fn all_valid(slots: Slots) -> bool {
    forall|i: int| 0 <= i < slots.len() ==> (#[trigger] slots[i] matches Some(e) ==> e.valid())
}

/// The simulation world: the entities and the boundary that contains them.
pub struct World {
    slots: Vec<Option<Entity>>,
    boundary: MapBoundary,
}

impl View for World {
    type V = Slots;

    closed spec fn view(&self) -> Slots {
        self.slots@
    }
}

impl World {
    /// The boundary the world was set up with.
    pub closed spec fn boundary(&self) -> MapBoundary {
        self.boundary
    }

    /// The invariant of a world: every entity in it is valid, and the
    /// boundary has room inside it.
    pub open spec fn wf(&self) -> bool {
        all_valid(self@) && self.boundary().valid()
    }

    /// An empty world inside `boundary`; refused where the boundary is
    /// malformed.
    pub fn new(boundary: MapBoundary) -> (r: Result<World, PhysicsError>)
        ensures
            match r {
                Ok(w) => boundary.valid() && w.wf() && w@.len() == 0 && w.boundary() == boundary,
                Err(e) => !boundary.valid() && e == PhysicsError::MalformedSize,
            },
    {
        if boundary.radius >= crate::map::BOUNDARY_EPSILON {
            Ok(World::inside(boundary))
        } else {
            Err(PhysicsError::MalformedSize)
        }
    }

    /// An empty world inside a valid boundary.
    pub(crate) fn inside(boundary: MapBoundary) -> (w: World)
        requires
            boundary.valid(),
        ensures
            w.wf(),
            w@.len() == 0,
            w.boundary() == boundary,
    {
        World { slots: Vec::new(), boundary }
    }

    /// The number of handles given out so far.
    pub fn len(&self) -> (r: usize)
        ensures
            r == self@.len(),
    {
        self.slots.len()
    }

    /// The boundary the world was set up with.
    pub fn map_boundary(&self) -> (r: MapBoundary)
        ensures
            r == self.boundary(),
    {
        self.boundary
    }

    /// The slots of the world, one per handle.
    pub fn slots(&self) -> (r: &Vec<Option<Entity>>)
        ensures
            r@ == self@,
    {
        &self.slots
    }

    /// Puts `slots` in the place of the world's own.
    pub(crate) fn install(&mut self, slots: Vec<Option<Entity>>)
        requires
            old(self).wf(),
            all_valid(slots@),
        ensures
            final(self).wf(),
            final(self).boundary() == old(self).boundary(),
            final(self)@ == slots@,
    {
        self.slots = slots;
    }

    /// The entity behind `id`, if it is in the world.
    pub fn get(&self, id: EntityId) -> (r: Option<Entity>)
        ensures
            r == lookup(self@, id),
    {
        if id.0 < self.slots.len() {
            self.slots[id.0]
        } else {
            None
        }
    }

    /// Whether the entity behind `id` is in the world.
    pub fn contains(&self, id: EntityId) -> (r: bool)
        ensures
            r == lookup(self@, id).is_some(),
    {
        self.get(id).is_some()
    }

    /// Puts `entity` into the world under a fresh handle; an invalid entity
    /// is refused and the world stays as it is.
    pub fn spawn(&mut self, entity: Entity) -> (r: Result<EntityId, PhysicsError>)
        requires
            old(self).wf(),
        ensures
            final(self).wf(),
            final(self).boundary() == old(self).boundary(),
            r == admission(entity, old(self)@.len()),
            final(self)@ == (if r.is_ok() {
                old(self)@.push(Some(entity))
            } else {
                old(self)@
            }),
    {
        if let Some(m) = entity.mass {
            if m.0 <= 0 {
                return Err(PhysicsError::NonPositiveMass);
            }
        }
        if let Some(c) = entity.collider {
            if c.size.x < 0 || c.size.y < 0 {
                return Err(PhysicsError::MalformedSize);
            }
        }
        let id = EntityId(self.slots.len());
        self.slots.push(Some(entity));
        Ok(id)
    }

    /// Carries out one stage on every entity. Where an entity overflows the
    /// world stays as it was.
    pub fn apply(&mut self, pass: &Pass) -> (r: Result<(), PhysicsError>)
        requires
            old(self).wf(),
        ensures
            final(self).wf(),
            final(self).boundary() == old(self).boundary(),
            r == (if pass.passes(old(self)@, old(self).boundary()) {
                Ok::<(), PhysicsError>(())
            } else {
                Err(PhysicsError::Overflow)
            }),
            final(self)@ == (if r.is_ok() {
                pass.passed(old(self)@, old(self).boundary())
            } else {
                old(self)@
            }),
    {
        let n = self.slots.len();
        let mut next: Vec<Option<Entity>> = Vec::new();
        let mut i: usize = 0;
        while i < n
            invariant
                i <= n,
                n == self.slots.len(),
                *self == *old(self),
                self.wf(),
                next.len() == i,
                all_valid(next@),
                forall|k: int|
                    0 <= k < i ==> (#[trigger] self.slots@[k] matches Some(e) ==> !(pass.outcome(
                        e,
                        self.slots@,
                        self.boundary,
                    ) is Overflow)),
                forall|k: int|
                    0 <= k < i ==> #[trigger] next@[k] == pass.slot_outcome(
                        self.slots@[k],
                        self.slots@,
                        self.boundary,
                    ),
            decreases n - i,
        {
            let slot = self.slots[i];
            assert(self@[i as int] == slot);
            match slot {
                None => {
                    next.push(None);
                },
                Some(e) => {
                    match pass.on(e, &self.slots, self.boundary) {
                        Outcome::Keep(x) => {
                            next.push(Some(x));
                        },
                        Outcome::Remove => {
                            next.push(None);
                        },
                        Outcome::Overflow => {
                            return Err(PhysicsError::Overflow);
                        },
                    }
                },
            }
            i = i + 1;
        }
        assert(next@ =~= pass.passed(self.slots@, self.boundary));
        self.slots = next;
        Ok(())
    }

    /// Removes the entity behind `id`. Removing what is not there changes
    /// nothing. Returns whether an entity was removed.
    pub fn despawn(&mut self, id: EntityId) -> (r: bool)
        requires
            old(self).wf(),
        ensures
            final(self).wf(),
            final(self).boundary() == old(self).boundary(),
            final(self)@ == without(old(self)@, id),
            r == lookup(old(self)@, id).is_some(),
    {
        if id.0 < self.slots.len() {
            let was = self.slots[id.0].is_some();
            self.slots.set(id.0, None);
            was
        } else {
            false
        }
    }
}

/// A copy of `slots`.
pub fn copy_slots(slots: &Vec<Option<Entity>>) -> (r: Vec<Option<Entity>>)
    ensures
        r@ == slots@,
{
    let n = slots.len();
    let mut copy: Vec<Option<Entity>> = Vec::new();
    let mut i: usize = 0;
    while i < n
        invariant
            i <= n == slots.len(),
            copy@ == slots@.take(i as int),
        decreases n - i,
    {
        copy.push(slots[i]);
        assert(copy@ =~= slots@.take(i + 1));
        i = i + 1;
    }
    assert(slots@.take(n as int) =~= slots@);
    copy
}

/// The layers on which things are drawn, from back to front.
#[derive(Clone, Copy, Debug, PartialEq, Eq)]
pub enum ZLayer {
    Background,
    MapFloor,
    Game,
    Character,
    Foreground,
    UI,
}

impl ZLayer {
    /// The depth of the layer.
    pub open spec fn depth_of(self) -> int {
        match self {
            ZLayer::Background => 0,
            ZLayer::MapFloor => 5,
            ZLayer::Game => 10,
            ZLayer::Character => 25,
            ZLayer::Foreground => 50,
            ZLayer::UI => 100,
        }
    }

    /// The depth of the layer.
    pub fn depth(self) -> (r: i32)
        ensures
            r == self.depth_of(),
    {
        match self {
            ZLayer::Background => 0,
            ZLayer::MapFloor => 5,
            ZLayer::Game => 10,
            ZLayer::Character => 25,
            ZLayer::Foreground => 50,
            ZLayer::UI => 100,
        }
    }
}

/// The entity behind `id` in `slots`, if there is one.
pub open spec fn lookup(slots: Slots, id: EntityId) -> Option<Entity> {
    if id.0 < slots.len() {
        slots[id.0 as int]
    } else {
        None
    }
}

/// The entity behind `id` in `slots`, if there is one.
pub fn slot_at(slots: &Vec<Option<Entity>>, id: EntityId) -> (r: Option<Entity>)
    ensures
        r == lookup(slots@, id),
{
    if id.0 < slots.len() {
        slots[id.0]
    } else {
        None
    }
}

/// `slots` with the entity behind `id` removed.
pub open spec fn without(slots: Slots, id: EntityId) -> Slots {
    if id.0 < slots.len() {
        slots.update(id.0 as int, None)
    } else {
        slots
    }
}

/// The answer to an entity that asks to enter a world as number `next`.
pub open spec fn admission(entity: Entity, next: nat) -> Result<EntityId, PhysicsError> {
    if entity.mass matches Some(m) && m.0 <= 0 {
        Err(PhysicsError::NonPositiveMass)
    } else if entity.collider matches Some(c) && !c.valid() {
        Err(PhysicsError::MalformedSize)
    } else {
        Ok(EntityId(next as usize))
    }
}

/// Removing an entity twice is removing it once, and removing what is not
/// there changes nothing.
pub proof fn lemma_removal_idempotent(slots: Slots, id: EntityId)
    ensures
        without(without(slots, id), id) == without(slots, id),
        lookup(without(slots, id), id) is None,
        lookup(slots, id) is None ==> without(slots, id) == slots,
{
    assert(without(without(slots, id), id) =~= without(slots, id));
    if lookup(slots, id) is None {
        assert(without(slots, id) =~= slots);
    }
}

} // verus!
