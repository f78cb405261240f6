//! Deterministic integer physics and collision core for a top-down arcade shooter.
//!
//! Every quantity is a whole number. A length of 1000 is one pixel and time
//! is counted in milliseconds, so a velocity of 1 is one pixel per second.
//! Factors without a dimension, such as a scale or the components of a unit
//! vector, are in thousandths too: [`math::UNIT`] stands for one. Divisions
//! round toward zero. A result that does not fit in 32 bits is reported as
//! [`world::PhysicsError::Overflow`], never wrapped or clamped.
//!
//! A [`world::World`] holds the entities. [`simulation::step`] advances it by
//! one frame: forces, acceleration, velocity, position, colliders, collision
//! detection and response, containment by the boundary, expiry and firing,
//! in that order. Each stage is also a function of its own.

pub mod actions;
pub mod clock;
pub mod collision;
pub mod enemy;
pub mod gravity;
pub mod map;
pub mod math;
pub mod movement;
pub mod player;
pub mod simulation;
pub mod stage;
pub mod world;
