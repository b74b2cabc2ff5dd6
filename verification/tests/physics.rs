use woods::components::{AnyComponent, BodyComponent, BODY_CTID};
use woods::ecs::ECS;
use woods::runtime::{Runtime, RuntimeMessage, RuntimeRole};
use woods::systems::{ComponentSystem, PhysicsSystem, DEPTH_DECAY_RATE, FALL_LIMIT, FALL_RATE};

fn body(x: i64, y: i64, z: i64) -> BodyComponent {
    BodyComponent { x, y, z, sx: 1000, sy: 1000, sz: 1000 }
}

// Coordinates count thousandths of a world unit, dt counts milliseconds, so
// one second is dt = 1000 and a height of 600.0 units is 600_000.
const ONE_SECOND: i64 = 1000;

#[test]
fn falling_body_gains_thirty_units_per_second() {
    let mut e = ECS::new();
    e.create_entity(7, &vec![AnyComponent::Body(body(0, 0, 0))]);
    let diffs = PhysicsSystem::new().tick(&e, ONE_SECOND);
    assert_eq!(diffs.len(), 1);
    let (eid, ctid, comp) = diffs[0];
    assert_eq!(eid, 7);
    assert_eq!(ctid, BODY_CTID);
    // y gains exactly 30.0 units: 30 thousandths per millisecond.
    assert_eq!(comp, AnyComponent::Body(body(0, 30_000, 0)));
    assert_eq!(FALL_RATE * ONE_SECOND, 30_000);
}

#[test]
fn body_at_fall_limit_produces_no_diff() {
    // The threshold is exclusive: at exactly 600.0 units the body rests.
    let mut e = ECS::new();
    e.create_entity(7, &vec![AnyComponent::Body(body(0, FALL_LIMIT, 0))]);
    let diffs = PhysicsSystem::new().tick(&e, ONE_SECOND);
    assert_eq!(diffs, Vec::new());
}

#[test]
fn body_just_below_fall_limit_still_falls() {
    let mut e = ECS::new();
    e.create_entity(7, &vec![AnyComponent::Body(body(0, FALL_LIMIT - 1, 0))]);
    let diffs = PhysicsSystem::new().tick(&e, ONE_SECOND);
    assert_eq!(diffs.len(), 1);
    assert_eq!(diffs[0].2, AnyComponent::Body(body(0, FALL_LIMIT - 1 + 30_000, 0)));
}

#[test]
fn positive_depth_decays() {
    let mut e = ECS::new();
    e.create_entity(7, &vec![AnyComponent::Body(body(0, FALL_LIMIT, 3_000))]);
    let diffs = PhysicsSystem::new().tick(&e, ONE_SECOND);
    assert_eq!(diffs.len(), 1);
    // z loses exactly 5.0 units per second; the rule does not stop at zero.
    assert_eq!(diffs[0].2, AnyComponent::Body(body(0, FALL_LIMIT, 3_000 - 5_000)));
    assert_eq!(DEPTH_DECAY_RATE * ONE_SECOND, 5_000);
}

#[test]
fn zero_depth_does_not_decay() {
    let mut e = ECS::new();
    e.create_entity(7, &vec![AnyComponent::Body(body(0, FALL_LIMIT, 0))]);
    assert_eq!(PhysicsSystem::new().tick(&e, ONE_SECOND), Vec::new());
}

#[test]
fn tick_proposes_without_mutating() {
    let mut e = ECS::new();
    e.create_entity(7, &vec![AnyComponent::Body(body(0, 0, 0))]);
    let _ = PhysicsSystem::new().tick(&e, ONE_SECOND);
    assert_eq!(e.get_component(7), Some(body(0, 0, 0)));
}

#[test]
fn master_systems_tick_applies_and_broadcasts_diffs() {
    let mut rt = Runtime::new(RuntimeRole::Master);
    let _ = rt.apply_message(RuntimeMessage::EntityCreate(
        7,
        vec![AnyComponent::Body(body(0, 0, 0))],
    ));
    rt.systems_tick(ONE_SECOND);
    assert_eq!(rt.ecs().get_component(7), Some(body(0, 30_000, 0)));
    let out = rt.take_outbox();
    assert_eq!(
        out,
        vec![(
            RuntimeMessage::ComponentUpdate(7, BODY_CTID, AnyComponent::Body(body(0, 30_000, 0))),
            false
        )]
    );
}

#[test]
fn relay_systems_tick_predicts_and_forwards_downstream() {
    let mut rt = Runtime::new(RuntimeRole::Intermediate);
    let _ = rt.take_outbox();
    let _ = rt.apply_message(RuntimeMessage::EntityCreate(
        7,
        vec![AnyComponent::Body(body(0, 0, 0))],
    ));
    let _ = rt.take_outbox();
    rt.systems_tick(ONE_SECOND);
    assert_eq!(rt.ecs().get_component(7), Some(body(0, 30_000, 0)));
    // The diff goes downstream with the forward hint, never upstream.
    let out = rt.take_outbox();
    assert_eq!(
        out,
        vec![(
            RuntimeMessage::ComponentUpdate(7, BODY_CTID, AnyComponent::Body(body(0, 30_000, 0))),
            true
        )]
    );
}

#[test]
fn renderer_systems_tick_stays_silent() {
    let mut rt = Runtime::new(RuntimeRole::Renderer);
    let _ = rt.apply_message(RuntimeMessage::EntityCreate(
        7,
        vec![AnyComponent::Body(body(0, 0, 0))],
    ));
    rt.systems_tick(ONE_SECOND);
    assert_eq!(rt.ecs().get_component(7), Some(body(0, 30_000, 0)));
    assert_eq!(rt.take_outbox(), Vec::new());
}
