//! One step of the simulation: the stages in their fixed order.

use vstd::prelude::*;
use crate::actions::Actions;
use crate::collision::collisions;
use crate::collision::detect_collisions;
use crate::gravity::total_pull;
use crate::map::MapBoundary;
use crate::math::Vec2;
use crate::math::Vector;
use crate::player::bounced;
use crate::player::bounced_all;
use crate::player::collision_handler_enemy_bullet;
use crate::player::handle_bullet_collision;
use crate::player::shoot;
use crate::player::struck;
use crate::player::struck_all;
use crate::player::volley;
use crate::stage::Pass;
use crate::world::all_valid;
use crate::world::copy_slots;
use crate::world::Entity;
use crate::world::PhysicsError;
use crate::world::Slots;
use crate::world::World;

verus! {

/// The world after one more stage, where the stages so far and this one can
/// be carried out.
pub open spec fn after(s: Option<Slots>, pass: Pass, boundary: MapBoundary) -> Option<Slots> {
    match s {
        Some(slots) => if pass.passes(slots, boundary) {
            Some(pass.passed(slots, boundary))
        } else {
            None
        },
        None => None,
    }
}

/// The world after the kinematic stages, in this order: every force is set
/// to zero; gravity and then the movement intent put their forces on;
/// acceleration is derived; velocity and then position are integrated over
/// `dt` milliseconds; the colliders are derived from the new transforms.
pub open spec fn integrated(
    slots: Slots,
    boundary: MapBoundary,
    intent: Option<Vec2>,
    dt: u32,
) -> Option<Slots> {
    after(
        after(
            after(
                after(
                    after(
                        after(after(Some(slots), Pass::ResetForces, boundary), Pass::Gravity, boundary),
                        Pass::Steer(intent),
                        boundary,
                    ),
                    Pass::DeriveAcceleration,
                    boundary,
                ),
                Pass::IntegrateVelocity(dt),
                boundary,
            ),
            Pass::IntegratePosition(dt),
            boundary,
        ),
        Pass::RefreshColliders,
        boundary,
    )
}

/// The world after the collisions in it have been found and answered: first
/// the elastic responder takes all events, then the lethal responder takes
/// the same events.
pub open spec fn answered(slots: Slots) -> Option<Slots> {
    let events = collisions(slots);
    match bounced_all(slots, events, events.len()) {
        Some(s) => Some(struck_all(s, events, events.len())),
        None => None,
    }
}

/// The world after the firing stage.
pub open spec fn fired(slots: Slots, boundary: MapBoundary, target: Option<Vec2>, dt: u32) -> Option<
    Slots,
> {
    match volley(slots, target, dt, slots.len()) {
        Some(bullets) => Some(Pass::Trigger(target, dt).passed(slots, boundary) + bullets),
        None => None,
    }
}

/// The world after one step of `dt` milliseconds: the kinematic stages, then
/// collision detection and the two responders, then containment by the
/// boundary, then the aging and removal of what has a life span, then
/// firing. `None` where a stage meets a state that is not representable.
pub open spec fn stepped(slots: Slots, boundary: MapBoundary, actions: Actions, dt: u32) -> Option<
    Slots,
> {
    match integrated(slots, boundary, actions.player_movement, dt) {
        Some(moved) => match answered(moved) {
            Some(settled) => match after(
                after(Some(settled), Pass::Contain, boundary),
                Pass::Age(dt),
                boundary,
            ) {
                Some(aged) => fired(aged, boundary, actions.shoot, dt),
                None => None,
            },
            None => None,
        },
        None => None,
    }
}

/// Carries out the stages of a step one after the other and stops at the
/// first that cannot be carried out.
fn run(world: &mut World, actions: &Actions, dt: u32) -> (done: bool)
    requires
        old(world).wf(),
    ensures
        final(world).wf(),
        final(world).boundary() == old(world).boundary(),
        done == stepped(old(world)@, old(world).boundary(), *actions, dt) is Some,
        done ==> Some(final(world)@) == stepped(old(world)@, old(world).boundary(), *actions, dt),
{
    let ghost b = world.boundary();
    if world.apply(&Pass::ResetForces).is_err() {
        return false;
    }
    if world.apply(&Pass::Gravity).is_err() {
        return false;
    }
    if world.apply(&Pass::Steer(actions.player_movement)).is_err() {
        return false;
    }
    if world.apply(&Pass::DeriveAcceleration).is_err() {
        return false;
    }
    if world.apply(&Pass::IntegrateVelocity(dt)).is_err() {
        return false;
    }
    if world.apply(&Pass::IntegratePosition(dt)).is_err() {
        return false;
    }
    if world.apply(&Pass::RefreshColliders).is_err() {
        return false;
    }
    assert(Some(world@) == integrated(old(world)@, b, actions.player_movement, dt));
    let events = detect_collisions(world);
    if handle_bullet_collision(world, &events).is_err() {
        return false;
    }
    collision_handler_enemy_bullet(world, &events);
    if world.apply(&Pass::Contain).is_err() {
        return false;
    }
    if world.apply(&Pass::Age(dt)).is_err() {
        return false;
    }
    if shoot(world, actions.shoot, dt).is_err() {
        return false;
    }
    true
}

/// Takes one step of `dt` milliseconds with the intent `actions`. Each
/// stage is complete before the next begins. Where a stage meets a state
/// that is not representable, the step fails and the world is as it was
/// before the step.
pub fn step(world: &mut World, actions: &Actions, dt: u32) -> (r: Result<(), PhysicsError>)
    requires
        old(world).wf(),
    ensures
        final(world).wf(),
        final(world).boundary() == old(world).boundary(),
        r == (if stepped(old(world)@, old(world).boundary(), *actions, dt) is Some {
            Ok::<(), PhysicsError>(())
        } else {
            Err(PhysicsError::Overflow)
        }),
        final(world)@ == (match stepped(old(world)@, old(world).boundary(), *actions, dt) {
            Some(s) => s,
            None => old(world)@,
        }),
{
    let backup = copy_slots(world.slots());
    if run(world, actions, dt) {
        Ok(())
    } else {
        world.install(backup);
        Err(PhysicsError::Overflow)
    }
}

/// Whether the acceleration of the entity is its force over its mass. An
/// entity that lacks one of the three obeys.
pub open spec fn obeys(e: Entity) -> bool {
    match (e.acceleration, e.force, e.mass) {
        (Some(a), Some(f), Some(m)) => a.0@ == f.0@.over(m.0 as int),
        _ => true,
    }
}

/// Whether every entity in `slots` obeys.
pub open spec fn all_obey(slots: Slots) -> bool {
    forall|i: int| 0 <= i < slots.len() ==> (#[trigger] slots[i] matches Some(e) ==> obeys(e))
}

/// Whether the stage leaves force, mass and acceleration alone.
pub open spec fn leaves_kinematics(pass: Pass) -> bool {
    ||| pass is IntegrateVelocity
    ||| pass is IntegratePosition
    ||| pass is RefreshColliders
    ||| pass is Contain
    ||| pass is Age
    ||| pass is Trigger
}

proof fn lemma_derivation_obeys(slots: Slots, boundary: MapBoundary)
    requires
        all_valid(slots),
    ensures
        all_obey(Pass::DeriveAcceleration.passed(slots, boundary)),
{
    let next = Pass::DeriveAcceleration.passed(slots, boundary);
    assert forall|i: int| 0 <= i < next.len() implies (#[trigger] next[i] matches Some(e)
        ==> obeys(e)) by {
        if let Some(e) = slots[i] {
            if let (Some(_), Some(f), Some(m)) = (e.acceleration, e.force, e.mass) {
                crate::movement::lemma_quotient_no_longer(f.0.x as int, m.0 as int);
                crate::movement::lemma_quotient_no_longer(f.0.y as int, m.0 as int);
            }
        }
    }
}

proof fn lemma_pass_keeps_obedience(pass: Pass, slots: Slots, boundary: MapBoundary)
    requires
        leaves_kinematics(pass),
        all_obey(slots),
    ensures
        all_obey(pass.passed(slots, boundary)),
{
    let next = pass.passed(slots, boundary);
    assert forall|i: int| 0 <= i < next.len() implies (#[trigger] next[i] matches Some(e)
        ==> obeys(e)) by {
        if let Some(e) = slots[i] {
            assert(obeys(e));
        }
    }
}

proof fn lemma_bounce_keeps_obedience(slots: Slots, events: Seq<crate::collision::CollisionEvent>, n: nat)
    requires
        all_obey(slots),
        bounced_all(slots, events, n) is Some,
    ensures
        all_obey(bounced_all(slots, events, n).unwrap()),
    decreases n,
{
    if n > 0 {
        let before = bounced_all(slots, events, (n - 1) as nat).unwrap();
        lemma_bounce_keeps_obedience(slots, events, (n - 1) as nat);
        let ev = events[n - 1];
        let next = bounced(before, ev).unwrap();
        assert forall|i: int| 0 <= i < next.len() implies (#[trigger] next[i] matches Some(e)
            ==> obeys(e)) by {
            if next != before {
                assert(before[ev.entity1.0 as int] matches Some(a) && obeys(a));
                assert(before[ev.entity2.0 as int] matches Some(b) && obeys(b));
                assert(before[i] matches Some(e) ==> obeys(e));
            }
        }
    }
}

proof fn lemma_strike_keeps_obedience(slots: Slots, events: Seq<crate::collision::CollisionEvent>, n: nat)
    requires
        all_obey(slots),
    ensures
        all_obey(struck_all(slots, events, n)),
    decreases n,
{
    if n > 0 {
        let before = struck_all(slots, events, (n - 1) as nat);
        lemma_strike_keeps_obedience(slots, events, (n - 1) as nat);
        let next = struck(before, events[n - 1]);
        assert forall|i: int| 0 <= i < next.len() implies (#[trigger] next[i] matches Some(e)
            ==> obeys(e)) by {
            assert(before[i] matches Some(e) ==> obeys(e));
        }
    }
}

proof fn lemma_volley_obeys(slots: Slots, target: Option<Vec2>, dt: u32, n: nat)
    requires
        volley(slots, target, dt, n) is Some,
    ensures
        all_obey(volley(slots, target, dt, n).unwrap()),
    decreases n,
{
    if n > 0 {
        lemma_volley_obeys(slots, target, dt, (n - 1) as nat);
        let before = volley(slots, target, dt, (n - 1) as nat).unwrap();
        let next = volley(slots, target, dt, n).unwrap();
        assert forall|i: int| 0 <= i < next.len() implies (#[trigger] next[i] matches Some(e)
            ==> obeys(e)) by {
            if i < before.len() {
                assert(before[i] matches Some(e) ==> obeys(e));
            }
        }
    }
}

/// After every step, the acceleration of each entity that has force, mass
/// and acceleration is its force over its mass, each component rounded toward
/// zero; the force is the one gathered in this step, starting from zero.
pub proof fn lemma_step_obeys_second_law(
    slots: Slots,
    boundary: MapBoundary,
    actions: Actions,
    dt: u32,
)
    requires
        all_valid(slots),
        stepped(slots, boundary, actions, dt) is Some,
    ensures
        all_obey(stepped(slots, boundary, actions, dt).unwrap()),
{
    let b = boundary;
    let s1 = after(Some(slots), Pass::ResetForces, b).unwrap();
    let s2 = after(Some(s1), Pass::Gravity, b).unwrap();
    let s3 = after(Some(s2), Pass::Steer(actions.player_movement), b).unwrap();
    lemma_pass_keeps_validity(Pass::ResetForces, slots, b);
    lemma_pass_keeps_validity(Pass::Gravity, s1, b);
    lemma_pass_keeps_validity(Pass::Steer(actions.player_movement), s2, b);
    lemma_derivation_obeys(s3, b);
    let s4 = Pass::DeriveAcceleration.passed(s3, b);
    lemma_pass_keeps_obedience(Pass::IntegrateVelocity(dt), s4, b);
    let s5 = Pass::IntegrateVelocity(dt).passed(s4, b);
    lemma_pass_keeps_obedience(Pass::IntegratePosition(dt), s5, b);
    let s6 = Pass::IntegratePosition(dt).passed(s5, b);
    lemma_pass_keeps_obedience(Pass::RefreshColliders, s6, b);
    let s7 = Pass::RefreshColliders.passed(s6, b);
    assert(Some(s7) == integrated(slots, b, actions.player_movement, dt));
    let events = collisions(s7);
    lemma_bounce_keeps_obedience(s7, events, events.len());
    let s8 = bounced_all(s7, events, events.len()).unwrap();
    lemma_strike_keeps_obedience(s8, events, events.len());
    let s9 = struck_all(s8, events, events.len());
    lemma_pass_keeps_obedience(Pass::Contain, s9, b);
    let s10 = Pass::Contain.passed(s9, b);
    lemma_pass_keeps_obedience(Pass::Age(dt), s10, b);
    let s11 = Pass::Age(dt).passed(s10, b);
    lemma_pass_keeps_obedience(Pass::Trigger(actions.shoot, dt), s11, b);
    lemma_volley_obeys(s11, actions.shoot, dt, s11.len());
    let s12 = stepped(slots, b, actions, dt).unwrap();
    let kept = Pass::Trigger(actions.shoot, dt).passed(s11, b);
    let bullets = volley(s11, actions.shoot, dt, s11.len()).unwrap();
    assert(s12 == kept + bullets);
    assert forall|i: int| 0 <= i < s12.len() implies (#[trigger] s12[i] matches Some(e) ==> obeys(
        e,
    )) by {
        if i < kept.len() {
            assert(kept[i] matches Some(e) ==> obeys(e));
        } else {
            assert(bullets[i - kept.len()] matches Some(e) ==> obeys(e));
        }
    }
}

/// A stage that does not touch mass or collider keeps every entity valid.
proof fn lemma_pass_keeps_validity(pass: Pass, slots: Slots, boundary: MapBoundary)
    requires
        pass is ResetForces || pass is Gravity || pass is Steer,
        all_valid(slots),
    ensures
        all_valid(pass.passed(slots, boundary)),
{
    let next = pass.passed(slots, boundary);
    assert forall|i: int| 0 <= i < next.len() implies (#[trigger] next[i] matches Some(e)
        ==> e.valid()) by {
        if let Some(e) = slots[i] {
            assert(e.valid());
        }
    }
}

/// Whether two entities are alike in all but the values of their force and
/// acceleration.
pub open spec fn alike_but_derived(a: Entity, b: Entity) -> bool {
    &&& a.force is Some <==> b.force is Some
    &&& a.acceleration is Some <==> b.acceleration is Some
    &&& (Entity { force: None, acceleration: None, ..a }) == (Entity {
        force: None,
        acceleration: None,
        ..b
    })
}

/// Whether two worlds hold, slot by slot, entities that are alike in all but
/// the values of force and acceleration.
pub open spec fn worlds_alike_but_derived(s: Slots, t: Slots) -> bool {
    &&& s.len() == t.len()
    &&& forall|i: int|
        0 <= i < s.len() ==> match (#[trigger] s[i], t[i]) {
            (Some(a), Some(b)) => alike_but_derived(a, b),
            (None, None) => true,
            _ => false,
        }
}

/// Whether every entity that has an acceleration also has the force and the
/// mass to derive it from.
pub open spec fn all_derivable(s: Slots) -> bool {
    forall|i: int|
        0 <= i < s.len() ==> (#[trigger] s[i] matches Some(e) ==> (e.acceleration is Some
            ==> e.force is Some && e.mass is Some))
}

proof fn lemma_pull_reads_no_derived_state(
    position: Vector,
    mass: int,
    s: Slots,
    t: Slots,
    n: nat,
)
    requires
        worlds_alike_but_derived(s, t),
        n <= s.len(),
    ensures
        total_pull(position, mass, s, n) == total_pull(position, mass, t, n),
    decreases n,
{
    if n > 0 {
        lemma_pull_reads_no_derived_state(position, mass, s, t, (n - 1) as nat);
        assert(s[n - 1] is Some <==> t[n - 1] is Some);
    }
}

/// A step forgets the force and the acceleration of the step before: two
/// worlds that differ only in the values of force and acceleration are the
/// same world after one step. This holds where every entity with an
/// acceleration has a force and a mass; an acceleration that cannot be
/// derived is carried along.
pub proof fn lemma_step_forgets_derived_state(
    s: Slots,
    t: Slots,
    boundary: MapBoundary,
    actions: Actions,
    dt: u32,
)
    requires
        worlds_alike_but_derived(s, t),
        all_derivable(s),
    ensures
        stepped(s, boundary, actions, dt) == stepped(t, boundary, actions, dt),
{
    let b = boundary;
    let intent = actions.player_movement;
    let s1 = Pass::ResetForces.passed(s, b);
    let t1 = Pass::ResetForces.passed(t, b);
    assert(Pass::ResetForces.passes(s, b) && Pass::ResetForces.passes(t, b));
    assert(worlds_alike_but_derived(s1, t1));
    assert forall|i: int| 0 <= i < s1.len() implies (#[trigger] s1[i] matches Some(e)
        ==> Pass::Gravity.outcome(e, s1, b) is Overflow == Pass::Gravity.outcome(
        t1[i].unwrap(),
        t1,
        b,
    ) is Overflow) && alike_same_force(
        Pass::Gravity.slot_outcome(s1[i], s1, b),
        Pass::Gravity.slot_outcome(t1[i], t1, b),
    ) by {
        if let Some(e) = s1[i] {
            let f = t1[i].unwrap();
            assert(s[i] is Some && t[i] is Some);
            if let Some(m) = e.mass {
                lemma_pull_reads_no_derived_state(
                    e.transform.translation@,
                    m.0 as int,
                    s1,
                    t1,
                    s1.len(),
                );
            }
        }
    }
    if Pass::Gravity.passes(s1, b) {
        assert forall|i: int| 0 <= i < t1.len() implies (#[trigger] t1[i] matches Some(e)
            ==> !(Pass::Gravity.outcome(e, t1, b) is Overflow)) by {
            assert(s1[i] is Some <==> t1[i] is Some);
        }
        let s2 = Pass::Gravity.passed(s1, b);
        let t2 = Pass::Gravity.passed(t1, b);
        assert forall|i: int| 0 <= i < s2.len() implies alike_same_force(
            #[trigger] s2[i],
            t2[i],
        ) by {
            assert(alike_same_force(
                Pass::Gravity.slot_outcome(s1[i], s1, b),
                Pass::Gravity.slot_outcome(t1[i], t1, b),
            ));
        }
        let steer = Pass::Steer(intent);
        assert forall|i: int| 0 <= i < s2.len() implies (#[trigger] s2[i] matches Some(e)
            ==> steer.outcome(e, s2, b) is Overflow == steer.outcome(t2[i].unwrap(), t2, b)
            is Overflow) && alike_same_force(
            steer.slot_outcome(s2[i], s2, b),
            steer.slot_outcome(t2[i], t2, b),
        ) by {
            assert(alike_same_force(s2[i], t2[i]));
        }
        if steer.passes(s2, b) {
            assert forall|i: int| 0 <= i < t2.len() implies (#[trigger] t2[i] matches Some(e)
                ==> !(steer.outcome(e, t2, b) is Overflow)) by {
                assert(alike_same_force(s2[i], t2[i]));
                assert(s2[i] matches Some(e) ==> !(steer.outcome(e, s2, b) is Overflow));
            }
            let s3 = steer.passed(s2, b);
            let t3 = steer.passed(t2, b);
            let derive = Pass::DeriveAcceleration;
            assert(derive.passes(s3, b) && derive.passes(t3, b));
            assert forall|i: int| 0 <= i < s3.len() implies derive.slot_outcome(s3[i], s3, b)
                == derive.slot_outcome(t3[i], t3, b) by {
                assert(alike_same_force(
                    steer.slot_outcome(s2[i], s2, b),
                    steer.slot_outcome(t2[i], t2, b),
                ));
                assert(alike_same_force(s2[i], t2[i]));
                assert(s1[i] is Some <==> s2[i] is Some);
                assert(s[i] is Some <==> s1[i] is Some);
                if let Some(e) = s[i] {
                    assert(e.acceleration is Some ==> e.force is Some && e.mass is Some);
                }
            }
            assert(derive.passed(s3, b) =~= derive.passed(t3, b));
        } else {
            let i = choose|i: int|
                0 <= i < s2.len() && (#[trigger] s2[i] matches Some(e) && steer.outcome(e, s2, b)
                    is Overflow);
            assert(alike_same_force(s2[i], t2[i]));
            assert(t2[i] matches Some(e) && steer.outcome(e, t2, b) is Overflow);
        }
    } else {
        let i = choose|i: int|
            0 <= i < s1.len() && (#[trigger] s1[i] matches Some(e) && Pass::Gravity.outcome(
                e,
                s1,
                b,
            ) is Overflow);
        assert(s1[i] is Some <==> t1[i] is Some);
        assert(t1[i] matches Some(e) && Pass::Gravity.outcome(e, t1, b) is Overflow);
    }
}

/// Whether two slots hold entities that are alike in all but the value of
/// their acceleration, or are both empty.
pub open spec fn alike_same_force(a: Option<Entity>, b: Option<Entity>) -> bool {
    match (a, b) {
        (Some(x), Some(y)) => alike_but_derived(x, y) && x.force == y.force,
        (None, None) => true,
        _ => false,
    }
}

} // verus!
