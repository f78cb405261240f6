//! The stages of a step that treat each entity on its own.

use vstd::prelude::*;
use crate::map::MapBoundary;
use crate::world::Entity;
use crate::world::Slots;

verus! {

/// What a stage makes of one entity.
pub enum Outcome {
    /// The entity stays, in this new state.
    Keep(Entity),
    /// The entity leaves the world.
    Remove,
    /// The new state of the entity is not representable.
    Overflow,
}

/// The outcome that keeps `e`, or reports an overflow where there is none.
pub open spec fn kept(e: Option<Entity>) -> Outcome {
    match e {
        Some(x) => Outcome::Keep(x),
        None => Outcome::Overflow,
    }
}

/// A stage that maps every entity of the world through one rule.
#[derive(Clone, Copy, Debug)]
pub enum Pass {
    /// Sets every force to zero.
    ResetForces,
    /// Sets the force on each body to what the gravity sources exert on it.
    Gravity,
    /// Adds the force of the player's movement intent.
    Steer(Option<crate::math::Vec2>),
    /// Derives acceleration from force and mass.
    DeriveAcceleration,
    /// Lets velocity gain acceleration times the elapsed milliseconds.
    IntegrateVelocity(u32),
    /// Lets position gain velocity times the elapsed milliseconds.
    IntegratePosition(u32),
    /// Derives the shape of each collider from the transform.
    RefreshColliders,
    /// Puts back inside the boundary what has left it.
    Contain,
    /// Ages every life span by the elapsed milliseconds and removes what
    /// has none left.
    Age(u32),
    /// Advances the weapon of each player by the elapsed milliseconds, and
    /// starts its cooldown over where it fires at the given target.
    Trigger(Option<crate::math::Vec2>, u32),
    /// Moves each enemy toward the given place for the elapsed milliseconds.
    Chase(crate::math::Vec2, u32),
}

impl Pass {
    /// What the stage makes of `e`, in a world that holds `slots` inside
    /// `boundary`.
    pub open spec fn outcome(self, e: Entity, slots: Slots, boundary: MapBoundary) -> Outcome {
        match self {
            Pass::ResetForces => Outcome::Keep(crate::movement::forces_reset(e)),
            Pass::Gravity => kept(crate::gravity::attracted(e, slots)),
            Pass::Steer(intent) => kept(crate::movement::steered(e, intent)),
            Pass::DeriveAcceleration => Outcome::Keep(crate::movement::acceleration_derived(e)),
            Pass::IntegrateVelocity(dt) => kept(crate::movement::velocity_integrated(e, dt)),
            Pass::IntegratePosition(dt) => kept(crate::movement::position_integrated(e, dt)),
            Pass::RefreshColliders => kept(crate::collision::collider_refreshed(e)),
            Pass::Contain => kept(crate::map::contained(e, boundary)),
            Pass::Age(dt) => match crate::player::aged(e, dt) {
                Some(x) => Outcome::Keep(x),
                None => Outcome::Remove,
            },
            Pass::Trigger(target, dt) => Outcome::Keep(crate::player::triggered(e, target, dt)),
            Pass::Chase(player, dt) => kept(crate::enemy::chasing(e, player, dt)),
        }
    }

    /// What the stage makes of the slot `slot`; an empty slot stays empty.
    pub open spec fn slot_outcome(
        self,
        slot: Option<Entity>,
        slots: Slots,
        boundary: MapBoundary,
    ) -> Option<Entity> {
        match slot {
            Some(e) => match self.outcome(e, slots, boundary) {
                Outcome::Keep(x) => Some(x),
                _ => None,
            },
            None => None,
        }
    }

    /// Whether the stage can be carried out: no entity overflows.
    pub open spec fn passes(self, slots: Slots, boundary: MapBoundary) -> bool {
        forall|i: int|
            0 <= i < slots.len() ==> (#[trigger] slots[i] matches Some(e) ==> !(self.outcome(
                e,
                slots,
                boundary,
            ) is Overflow))
    }

    /// The world after the stage.
    pub open spec fn passed(self, slots: Slots, boundary: MapBoundary) -> Slots {
        Seq::new(slots.len(), |i: int| self.slot_outcome(slots[i], slots, boundary))
    }

    /// Carries the stage out on one valid entity.
    pub fn on(&self, e: Entity, slots: &Vec<Option<Entity>>, boundary: MapBoundary) -> (r: Outcome)
        requires
            e.valid(),
        ensures
            r == self.outcome(e, slots@, boundary),
            r matches Outcome::Keep(x) ==> x.valid(),
    {
        match self {
            Pass::ResetForces => Outcome::Keep(crate::movement::reset_force(e)),
            Pass::Gravity => keep(crate::gravity::attract(e, slots)),
            Pass::Steer(intent) => keep(crate::movement::steer(e, *intent)),
            Pass::DeriveAcceleration => Outcome::Keep(crate::movement::derive_acceleration(e)),
            Pass::IntegrateVelocity(dt) => keep(crate::movement::integrate_velocity(e, *dt)),
            Pass::IntegratePosition(dt) => keep(crate::movement::integrate_position(e, *dt)),
            Pass::RefreshColliders => keep(crate::collision::refresh_collider(e)),
            Pass::Contain => keep(crate::map::contain(e, boundary)),
            Pass::Age(dt) => match crate::player::age(e, *dt) {
                Some(x) => Outcome::Keep(x),
                None => Outcome::Remove,
            },
            Pass::Trigger(target, dt) => Outcome::Keep(crate::player::advance_weapon(e, *target, *dt)),
            Pass::Chase(player, dt) => keep(crate::enemy::chase(e, *player, *dt)),
        }
    }
}

/// The outcome that keeps `e`, or reports an overflow where there is none.
pub fn keep(e: Option<Entity>) -> (r: Outcome)
    ensures
        r == kept(e),
{
    match e {
        Some(x) => Outcome::Keep(x),
        None => Outcome::Overflow,
    }
}

} // verus!
