use woods::components::{AnyComponent, BodyComponent, BODY_CTID};
use woods::input::Input;
use woods::runtime::{Runtime, RuntimeError, RuntimeMessage, RuntimeRole};

fn body(x: i64, y: i64, z: i64) -> BodyComponent {
    BodyComponent { x, y, z, sx: 1000, sy: 1000, sz: 1000 }
}

#[test]
fn authority_input_creates_entity() {
    // An authority over an empty store resolves a raw input into one live
    // entity carrying exactly the given body, and queues the resolved
    // entity-create for broadcast to its peers.
    let mut rt = Runtime::new(RuntimeRole::Master);
    let b = body(1000, 2000, 3000);
    let r = rt.apply_message(RuntimeMessage::Input(Input::CreateEntity(b)));
    assert_eq!(r, Ok(()));
    let live = rt.ecs().live_eids();
    assert_eq!(live.len(), 1);
    assert_eq!(rt.ecs().get_component(live[0]), Some(b));
    assert_eq!(
        rt.take_outbox(),
        vec![(RuntimeMessage::EntityCreate(live[0], vec![AnyComponent::Body(b)]), false)]
    );
}

#[test]
fn relay_requests_snapshot_on_construction() {
    let mut rt = Runtime::new(RuntimeRole::Intermediate);
    let out = rt.take_outbox();
    assert_eq!(out, vec![(RuntimeMessage::NeedLoad, false)]);
    // The outbox was drained.
    assert_eq!(rt.take_outbox(), Vec::new());
}

#[test]
fn relay_applies_snapshot_response() {
    let mut rt = Runtime::new(RuntimeRole::Intermediate);
    let _ = rt.take_outbox();
    let given = body(0, 500_000, 0);
    let snapshot = RuntimeMessage::Load(vec![(7, vec![AnyComponent::Body(given)])]);
    let r = rt.apply_message(snapshot);
    assert_eq!(r, Ok(()));
    assert_eq!(rt.ecs().get_component(7), Some(given));
}

#[test]
fn master_and_renderer_start_silent() {
    let mut master = Runtime::new(RuntimeRole::Master);
    let mut renderer = Runtime::new(RuntimeRole::Renderer);
    assert_eq!(master.take_outbox(), Vec::new());
    assert_eq!(renderer.take_outbox(), Vec::new());
}

#[test]
fn master_answers_snapshot_request() {
    let mut rt = Runtime::new(RuntimeRole::Master);
    let b = body(1, 2, 3);
    let _ = rt.apply_message(RuntimeMessage::EntityCreate(4, vec![AnyComponent::Body(b)]));
    let r = rt.apply_message(RuntimeMessage::NeedLoad);
    assert_eq!(r, Ok(()));
    let out = rt.take_outbox();
    assert_eq!(
        out,
        vec![(RuntimeMessage::Load(vec![(4, vec![AnyComponent::Body(b)])]), false)]
    );
}

#[test]
fn renderer_send_is_a_contract_violation() {
    // A passive instance obliged to send surfaces the violation instead.
    let mut rt = Runtime::new(RuntimeRole::Renderer);
    let r = rt.apply_message(RuntimeMessage::NeedLoad);
    assert_eq!(r, Err(RuntimeError::TxFromRenderer));
    assert_eq!(rt.take_outbox(), Vec::new());
}

#[test]
fn renderer_ingests_but_never_sends() {
    let mut rt = Runtime::new(RuntimeRole::Renderer);
    let b = body(1, 2, 3);
    let r = rt.apply_message(RuntimeMessage::EntityCreate(4, vec![AnyComponent::Body(b)]));
    assert_eq!(r, Ok(()));
    let r2 = rt.apply_message(RuntimeMessage::ComponentUpdate(
        4,
        BODY_CTID,
        AnyComponent::Body(body(9, 9, 9)),
    ));
    assert_eq!(r2, Ok(()));
    assert_eq!(rt.ecs().get_component(4), Some(body(9, 9, 9)));
    assert_eq!(rt.take_outbox(), Vec::new());
}

#[test]
fn relay_forwards_each_state_message_once() {
    // Every applied state-bearing message leaves exactly one downstream copy,
    // tagged with the forward hint.
    let mut rt = Runtime::new(RuntimeRole::Intermediate);
    let _ = rt.take_outbox();
    let b = body(1, 2, 3);

    let create = RuntimeMessage::EntityCreate(4, vec![AnyComponent::Body(b)]);
    assert_eq!(rt.apply_message(create.clone()), Ok(()));
    assert_eq!(rt.take_outbox(), vec![(create, true)]);

    let update = RuntimeMessage::ComponentUpdate(4, BODY_CTID, AnyComponent::Body(body(9, 9, 9)));
    assert_eq!(rt.apply_message(update.clone()), Ok(()));
    assert_eq!(rt.take_outbox(), vec![(update, true)]);

    let load = RuntimeMessage::Load(vec![(5, vec![AnyComponent::Body(b)])]);
    assert_eq!(rt.apply_message(load.clone()), Ok(()));
    assert_eq!(rt.take_outbox(), vec![(load, true)]);
}

#[test]
fn relay_forwards_resolved_input_and_sends_raw_input_upstream() {
    let mut rt = Runtime::new(RuntimeRole::Intermediate);
    let _ = rt.take_outbox();
    let b = body(1000, 2000, 3000);
    rt.io_tick(vec![Input::CreateEntity(b)], Vec::new());
    let out = rt.take_outbox();
    assert_eq!(out.len(), 2);
    // The resolved entity-create goes downstream with the forward hint.
    let live = rt.ecs().live_eids();
    assert_eq!(live.len(), 1);
    assert_eq!(
        out[0],
        (RuntimeMessage::EntityCreate(live[0], vec![AnyComponent::Body(b)]), true)
    );
    // The raw input goes upstream without it.
    assert_eq!(out[1], (RuntimeMessage::Input(Input::CreateEntity(b)), false));
}

#[test]
fn master_io_tick_broadcasts_resolved_inputs_only() {
    // The authority never re-emits the raw input; its one send per input is
    // the resolved entity-create, broadcast without the forward hint.
    let mut rt = Runtime::new(RuntimeRole::Master);
    let b = body(1, 2, 3);
    rt.io_tick(vec![Input::CreateEntity(b)], Vec::new());
    let live = rt.ecs().live_eids();
    assert_eq!(live.len(), 1);
    assert_eq!(
        rt.take_outbox(),
        vec![(RuntimeMessage::EntityCreate(live[0], vec![AnyComponent::Body(b)]), false)]
    );
}

#[test]
fn io_tick_applies_messages_in_arrival_order() {
    let mut rt = Runtime::new(RuntimeRole::Master);
    let older = body(1, 1, 1);
    let newer = body(2, 2, 2);
    rt.io_tick(
        Vec::new(),
        vec![
            RuntimeMessage::EntityCreate(4, vec![AnyComponent::Body(older)]),
            RuntimeMessage::ComponentUpdate(4, BODY_CTID, AnyComponent::Body(newer)),
        ],
    );
    assert_eq!(rt.ecs().get_component(4), Some(newer));
}

#[test]
fn component_update_is_idempotent() {
    let mut rt = Runtime::new(RuntimeRole::Master);
    let update = RuntimeMessage::ComponentUpdate(4, BODY_CTID, AnyComponent::Body(body(5, 6, 7)));
    assert_eq!(rt.apply_message(update.clone()), Ok(()));
    let once = rt.ecs().get_components();
    let once_live = rt.ecs().live_eids();
    assert_eq!(rt.apply_message(update), Ok(()));
    assert_eq!(rt.ecs().get_components(), once);
    assert_eq!(rt.ecs().live_eids(), once_live);
}

#[test]
fn unknown_component_kind_is_dropped_with_error() {
    let mut rt = Runtime::new(RuntimeRole::Master);
    let r = rt.apply_message(RuntimeMessage::ComponentUpdate(
        4,
        9,
        AnyComponent::Body(body(1, 1, 1)),
    ));
    assert_eq!(r, Err(RuntimeError::UnknownComponentType));
    assert_eq!(rt.ecs().get_component(4), None);
}

#[test]
fn snapshot_round_trip_rebuilds_store() {
    // Dump an authority's store and replay it into a fresh passive store: the
    // entity views come out pointwise equal.
    let mut master = Runtime::new(RuntimeRole::Master);
    let _ = master.apply_message(RuntimeMessage::EntityCreate(
        5,
        vec![AnyComponent::Body(body(1, 2, 3))],
    ));
    let _ = master.apply_message(RuntimeMessage::EntityCreate(
        2,
        vec![AnyComponent::Body(body(4, 5, 6))],
    ));
    let _ = master.apply_message(RuntimeMessage::NeedLoad);
    let out = master.take_outbox();
    assert_eq!(out.len(), 1);
    let (snapshot, down) = out.into_iter().next().unwrap();
    assert!(!down);

    let mut renderer = Runtime::new(RuntimeRole::Renderer);
    assert_eq!(renderer.apply_message(snapshot), Ok(()));
    assert_eq!(renderer.ecs().live_eids(), master.ecs().live_eids());
    for eid in master.ecs().live_eids() {
        assert_eq!(renderer.ecs().get_entity(eid), master.ecs().get_entity(eid));
    }
}

#[test]
fn snapshot_stomps_existing_entities() {
    // Re-applying a full dump overwrites slots without checking for
    // pre-existing entities.
    let mut rt = Runtime::new(RuntimeRole::Renderer);
    let _ = rt.apply_message(RuntimeMessage::EntityCreate(
        4,
        vec![AnyComponent::Body(body(1, 1, 1))],
    ));
    let _ = rt.apply_message(RuntimeMessage::Load(vec![(
        4,
        vec![AnyComponent::Body(body(8, 8, 8))],
    )]));
    assert_eq!(rt.ecs().get_component(4), Some(body(8, 8, 8)));
    assert_eq!(rt.ecs().live_eids(), vec![4]);
}
