use woods::components::{AnyComponent, BodyComponent, BODY_CTID, COMPONENT_COUNT};
use woods::ecs::{Component, ComponentType, EcsError, ECS};

fn body(x: i64, y: i64, z: i64) -> BodyComponent {
    BodyComponent { x, y, z, sx: 1000, sy: 1000, sz: 1000 }
}

#[test]
fn fresh_store_is_empty() {
    let e = ECS::new();
    assert_eq!(e.live_eids(), Vec::<usize>::new());
    assert_eq!(e.get_components(), Vec::new());
    assert_eq!(e.get_component(1), None);
}

#[test]
fn create_and_lookup() {
    let mut e = ECS::new();
    let b = body(1, 2, 3);
    e.create_entity(7, &vec![AnyComponent::Body(b)]);
    assert_eq!(e.get_component(7), Some(b));
    assert_eq!(e.get_component(8), None);
    assert_eq!(e.live_eids(), vec![7]);
}

#[test]
fn create_with_no_components_adds_no_entity() {
    let mut e = ECS::new();
    e.create_entity(7, &Vec::new());
    assert_eq!(e.live_eids(), Vec::<usize>::new());
    assert_eq!(e.get_component(7), None);
}

#[test]
fn create_duplicate_components_last_wins() {
    let mut e = ECS::new();
    let first = body(1, 1, 1);
    let second = body(2, 2, 2);
    e.create_entity(7, &vec![AnyComponent::Body(first), AnyComponent::Body(second)]);
    assert_eq!(e.get_component(7), Some(second));
    assert_eq!(e.live_eids(), vec![7]);
}

#[test]
fn update_component_overwrites() {
    let mut e = ECS::new();
    e.create_entity(7, &vec![AnyComponent::Body(body(1, 1, 1))]);
    let newer = body(9, 9, 9);
    let r = e.update_component(7, BODY_CTID, AnyComponent::Body(newer));
    assert_eq!(r, Ok(()));
    assert_eq!(e.get_component(7), Some(newer));
    assert_eq!(e.live_eids(), vec![7]);
}

#[test]
fn update_component_creates_live_entity() {
    let mut e = ECS::new();
    let b = body(4, 5, 6);
    let r = e.update_component(3, BODY_CTID, AnyComponent::Body(b));
    assert_eq!(r, Ok(()));
    assert_eq!(e.get_component(3), Some(b));
    assert_eq!(e.live_eids(), vec![3]);
}

#[test]
fn update_component_unknown_kind_is_refused() {
    let mut e = ECS::new();
    let r = e.update_component(3, COMPONENT_COUNT + 1, AnyComponent::Body(body(1, 1, 1)));
    assert_eq!(r, Err(EcsError::UnknownComponentType));
    assert_eq!(e.get_component(3), None);
    let r0 = e.update_component(3, 0, AnyComponent::Body(body(1, 1, 1)));
    assert_eq!(r0, Err(EcsError::UnknownComponentType));
}

#[test]
fn live_order_is_insertion_order() {
    let mut e = ECS::new();
    e.create_entity(5, &vec![AnyComponent::Body(body(1, 1, 1))]);
    e.create_entity(2, &vec![AnyComponent::Body(body(2, 2, 2))]);
    e.create_entity(9, &vec![AnyComponent::Body(body(3, 3, 3))]);
    assert_eq!(e.live_eids(), vec![5, 2, 9]);
    let slots = e.get_components();
    assert_eq!(slots.len(), 3);
    assert_eq!(slots[0], (5, body(1, 1, 1)));
    assert_eq!(slots[1], (2, body(2, 2, 2)));
    assert_eq!(slots[2], (9, body(3, 3, 3)));
}

#[test]
fn entity_views() {
    let mut e = ECS::new();
    let b = body(1, 2, 3);
    e.create_entity(7, &vec![AnyComponent::Body(b)]);
    assert_eq!(e.get_entity(7), vec![Some(AnyComponent::Body(b))]);
    assert_eq!(e.get_entity(8), vec![None]);
    assert_eq!(e.get_entity_anys(7), vec![AnyComponent::Body(b)]);
    assert_eq!(e.get_entity_anys(8), Vec::new());
}

#[test]
fn reserved_ids_are_distinct_and_fresh() {
    let mut e = ECS::new();
    let a = e.reserve_id().unwrap();
    let b = e.reserve_id().unwrap();
    let c = e.reserve_id().unwrap();
    assert!(a != b && b != c && a != c);
    assert_eq!((a, b, c), (2, 3, 4));
    assert!(!e.live_eids().contains(&a));
}

#[test]
fn reserve_id_skips_live_ids() {
    let mut e = ECS::new();
    e.create_entity(2, &vec![AnyComponent::Body(body(1, 1, 1))]);
    e.create_entity(3, &vec![AnyComponent::Body(body(2, 2, 2))]);
    let id = e.reserve_id().unwrap();
    assert_eq!(id, 4);
    let next = e.reserve_id().unwrap();
    assert_eq!(next, 5);
}

#[test]
fn component_envelope_kind() {
    let b = body(1, 2, 3);
    assert_eq!(BodyComponent::member_ctid(), BODY_CTID);
    assert_eq!(b.ctid(), BODY_CTID);
    assert_eq!(b.into_any(), AnyComponent::Body(b));
    assert_eq!(b.as_any(), AnyComponent::Body(b));
    assert_eq!(AnyComponent::Body(b).ctid(), BODY_CTID);
}
