//! The role-based replication runtime.
//!
//! A runtime owns the store, applies replication messages to it, and decides
//! by its role what is re-emitted: the authority (`Master`) broadcasts its
//! system diffs, the relay (`Intermediate`) forwards state-bearing messages
//! downstream and raw inputs upstream, and the passive tier (`Renderer`)
//! never sends. Outbound messages are queued in an outbox together with the
//! routing hint; the transport adapter outside this crate drains the outbox
//! and hands inbound traffic to [`Runtime::io_tick`].
//!
//! Every transition is specified by the pure functions [`spec_apply`],
//! [`spec_apply_diffs`], [`spec_apply_msgs`] and [`spec_apply_inputs`] over
//! the store model.

use vstd::prelude::*;

use crate::components::AnyComponent;
use crate::ecs::Component;
use crate::ecs::{ComponentTypeId, EcsError, EntityId, StoreModel, ECS};
use crate::ecs::spec_reserve;
use crate::input::Input;
use crate::systems::{physics_diffs, ComponentSystem, PhysicsSystem, MAX_TICK_DT};

verus! {

/// The unit of state change exchanged between tiers.
#[derive(Clone, Debug, PartialEq)]
pub enum RuntimeMessage {
    /// "I have no state, send me everything."
    NeedLoad,
    /// Full state dump: every live entity with its components.
    Load(Vec<(EntityId, Vec<AnyComponent>)>),
    /// A raw user action, before resolution.
    Input(Input),
    /// A new entity was materialized.
    EntityCreate(EntityId, Vec<AnyComponent>),
    /// Single-slot overwrite.
    ComponentUpdate(EntityId, ComponentTypeId, AnyComponent),
}

/// Mathematical model of a message: payload lists as sequences.
pub ghost enum MessageModel {
    NeedLoad,
    Load(Seq<(EntityId, Seq<AnyComponent>)>),
    Input(Input),
    EntityCreate(EntityId, Seq<AnyComponent>),
    ComponentUpdate(EntityId, ComponentTypeId, AnyComponent),
}

impl View for RuntimeMessage {
    type V = MessageModel;

    open spec fn view(&self) -> MessageModel {
        match *self {
            RuntimeMessage::NeedLoad => MessageModel::NeedLoad,
            RuntimeMessage::Load(entities) => MessageModel::Load(
                entities@.map(|i: int, p: (EntityId, Vec<AnyComponent>)| (p.0, p.1@)),
            ),
            RuntimeMessage::Input(input) => MessageModel::Input(input),
            RuntimeMessage::EntityCreate(eid, comps) => MessageModel::EntityCreate(eid, comps@),
            RuntimeMessage::ComponentUpdate(eid, ctid, comp) => MessageModel::ComponentUpdate(
                eid,
                ctid,
                comp,
            ),
        }
    }
}

/// The model of a message list, in order.
pub open spec fn msgs_view(v: Seq<RuntimeMessage>) -> Seq<MessageModel> {
    v.map(|i: int, m: RuntimeMessage| m@)
}

/// The model of an outbox: each queued message with its routing hint.
pub open spec fn outbox_view(v: Seq<(RuntimeMessage, bool)>) -> Seq<(MessageModel, bool)> {
    v.map(|i: int, p: (RuntimeMessage, bool)| (p.0@, p.1))
}

/// The replication role of a process, fixed for its lifetime.
#[derive(Clone, Copy, Debug, PartialEq, Eq, Structural)]
pub enum RuntimeRole {
    /// The authority: single source of truth, broadcasts its system diffs.
    Master,
    /// The relay: predicts locally, forwards state downstream and inputs
    /// upstream.
    Intermediate,
    /// The passive tier: only ingests forwarded state; never sends.
    Renderer,
}

/// Error of applying one message; the message is dropped, the runtime goes
/// on.
#[derive(Clone, Copy, Debug, PartialEq, Eq, Structural)]
pub enum RuntimeError {
    /// A component update named a kind outside the closed set.
    UnknownComponentType,
    /// A passive instance would have had to send, which it must never do.
    TxFromRenderer,
    /// No free entity id is left above the local counter.
    IdSpaceExhausted,
}

/// Mathematical model of a runtime: store, role, and pending outbound sends.
#[verifier::ext_equal]
pub ghost struct RuntimeModel {
    pub store: StoreModel,
    pub role: RuntimeRole,
    pub outbox: Seq<(MessageModel, bool)>,
}

/// What applying one message does: the new store, the emitted sends in
/// order (each with its routing hint), and the surfaced error, if any.
#[verifier::ext_equal]
pub ghost struct ApplyEffect {
    pub store: StoreModel,
    pub sends: Seq<(MessageModel, bool)>,
    pub result: Result<(), RuntimeError>,
}

/// What a whole tick does: the new store and the emitted sends in order.
#[verifier::ext_equal]
pub ghost struct TickEffect {
    pub store: StoreModel,
    pub sends: Seq<(MessageModel, bool)>,
}

/// Whether a message materializes or mutates visible state; exactly these
/// kinds are forwarded downstream by a relay.
pub open spec fn is_state_message(m: MessageModel) -> bool {
    m is Load || m is EntityCreate || m is ComponentUpdate
}

/// Resolve a raw input against the store: the one defined action reserves a
/// fresh id and turns into an entity-create message carrying the body.
/// `None` only where the id space is exhausted.
pub open spec fn spec_resolve_input(s: StoreModel, input: Input) -> Option<
    (StoreModel, MessageModel),
> {
    match input {
        Input::CreateEntity(body) => match spec_reserve(s) {
            Some((id, s1)) => Some(
                (s1, MessageModel::EntityCreate(id, seq![AnyComponent::Body(body)])),
            ),
            None => None,
        },
    }
}

/// Apply one already-resolved message: a relay first forwards a state-bearing
/// message downstream, then the local effect follows the kind. A snapshot
/// request is answered with a full dump, except by the passive tier, whose
/// send would be a contract violation.
pub open spec fn spec_apply_resolved(
    role: RuntimeRole,
    s: StoreModel,
    m: MessageModel,
) -> ApplyEffect {
    let forward: Seq<(MessageModel, bool)> = if role == RuntimeRole::Intermediate
        && is_state_message(m) {
        seq![(m, true)]
    } else {
        Seq::empty()
    };
    match m {
        MessageModel::NeedLoad => {
            if role == RuntimeRole::Renderer {
                ApplyEffect {
                    store: s,
                    sends: Seq::empty(),
                    result: Err(RuntimeError::TxFromRenderer),
                }
            } else {
                ApplyEffect {
                    store: s,
                    sends: seq![(MessageModel::Load(s.snapshot()), false)],
                    result: Ok(()),
                }
            }
        },
        MessageModel::Load(entities) => ApplyEffect {
            store: s.load(entities),
            sends: forward,
            result: Ok(()),
        },
        MessageModel::Input(_) => ApplyEffect { store: s, sends: Seq::empty(), result: Ok(()) },
        MessageModel::EntityCreate(eid, comps) => ApplyEffect {
            store: s.create(eid, comps),
            sends: forward,
            result: Ok(()),
        },
        MessageModel::ComponentUpdate(eid, ctid, comp) => {
            if ctid == comp.spec_ctid() {
                ApplyEffect { store: s.apply_component(eid, comp), sends: forward, result: Ok(()) }
            } else {
                ApplyEffect {
                    store: s,
                    sends: forward,
                    result: Err(RuntimeError::UnknownComponentType),
                }
            }
        },
    }
}

/// Apply one message of any kind: a raw input is first resolved, then the
/// resolved message is applied; every other kind is applied directly. The
/// authority additionally broadcasts the resolved state change to its peers —
/// the raw input itself is never re-emitted by anyone here.
pub open spec fn spec_apply(role: RuntimeRole, s: StoreModel, m: MessageModel) -> ApplyEffect {
    match m {
        MessageModel::Input(input) => match spec_resolve_input(s, input) {
            Some((s1, resolved)) => {
                let eff = spec_apply_resolved(role, s1, resolved);
                let peers: Seq<(MessageModel, bool)> = if role == RuntimeRole::Master {
                    seq![(resolved, false)]
                } else {
                    Seq::empty()
                };
                ApplyEffect { store: eff.store, sends: eff.sends + peers, result: eff.result }
            },
            None => ApplyEffect {
                store: s,
                sends: Seq::empty(),
                result: Err(RuntimeError::IdSpaceExhausted),
            },
        },
        _ => spec_apply_resolved(role, s, m),
    }
}

/// Apply the diffs of one systems tick, in order: each is applied as a
/// component update, and the authority alone broadcasts it to its peers.
pub open spec fn spec_apply_diffs(
    role: RuntimeRole,
    s: StoreModel,
    diffs: Seq<(EntityId, ComponentTypeId, AnyComponent)>,
) -> TickEffect
    decreases diffs.len(),
{
    if diffs.len() == 0 {
        TickEffect { store: s, sends: Seq::empty() }
    } else {
        let prev = spec_apply_diffs(role, s, diffs.drop_last());
        let (eid, ctid, comp) = diffs.last();
        let m = MessageModel::ComponentUpdate(eid, ctid, comp);
        let eff = spec_apply_resolved(role, prev.store, m);
        let peers: Seq<(MessageModel, bool)> = if role == RuntimeRole::Master {
            seq![(m, false)]
        } else {
            Seq::empty()
        };
        TickEffect { store: eff.store, sends: prev.sends + eff.sends + peers }
    }
}

/// Apply a batch of inbound messages in arrival order; an erroring message is
/// dropped and the batch goes on.
pub open spec fn spec_apply_msgs(
    role: RuntimeRole,
    s: StoreModel,
    msgs: Seq<MessageModel>,
) -> TickEffect
    decreases msgs.len(),
{
    if msgs.len() == 0 {
        TickEffect { store: s, sends: Seq::empty() }
    } else {
        let prev = spec_apply_msgs(role, s, msgs.drop_last());
        let eff = spec_apply(role, prev.store, msgs.last());
        TickEffect { store: eff.store, sends: prev.sends + eff.sends }
    }
}

/// Apply a batch of local inputs in arrival order: each is resolved and
/// applied, and a relay additionally sends the raw input upstream.
pub open spec fn spec_apply_inputs(
    role: RuntimeRole,
    s: StoreModel,
    inputs: Seq<Input>,
) -> TickEffect
    decreases inputs.len(),
{
    if inputs.len() == 0 {
        TickEffect { store: s, sends: Seq::empty() }
    } else {
        let prev = spec_apply_inputs(role, s, inputs.drop_last());
        let eff = spec_apply(role, prev.store, MessageModel::Input(inputs.last()));
        let upstream: Seq<(MessageModel, bool)> = if role == RuntimeRole::Intermediate {
            seq![(MessageModel::Input(inputs.last()), false)]
        } else {
            Seq::empty()
        };
        TickEffect { store: eff.store, sends: prev.sends + eff.sends + upstream }
    }
}


/// Law: applying the same component update twice in a row leaves the store in
/// the same state as applying it once.
pub proof fn lemma_component_update_idempotent(
    role: RuntimeRole,
    s: StoreModel,
    eid: EntityId,
    ctid: ComponentTypeId,
    comp: AnyComponent,
)
    ensures
        ({
            let m = MessageModel::ComponentUpdate(eid, ctid, comp);
            let once = spec_apply(role, s, m);
            let twice = spec_apply(role, once.store, m);
            twice.store == once.store
        }),
{
    if ctid == comp.spec_ctid() {
        match comp {
            AnyComponent::Body(b) => {
                let s1 = s.upd(eid, b);
                assert(s1.bodies.contains_key(eid));
                assert(s1.upd(eid, b).bodies =~= s1.bodies);
                assert(s1.upd(eid, b) =~= s1);
            },
        }
    }
}

/// Law: a relay emits exactly one downstream copy of every state-bearing
/// message it applies, and nothing else.
pub proof fn lemma_relay_forwards_state(s: StoreModel, m: MessageModel)
    requires
        is_state_message(m),
    ensures
        spec_apply(RuntimeRole::Intermediate, s, m).sends =~= seq![(m, true)],
{
}

/// Law: a relay emits exactly one downstream copy of the state change it
/// resolves a raw input into.
pub proof fn lemma_relay_forwards_input(s: StoreModel, input: Input)
    ensures
        match spec_resolve_input(s, input) {
            Some((s1, resolved)) => is_state_message(resolved) && spec_apply(
                RuntimeRole::Intermediate,
                s,
                MessageModel::Input(input),
            ).sends =~= seq![(resolved, true)],
            None => spec_apply(RuntimeRole::Intermediate, s, MessageModel::Input(input)).sends
                =~= Seq::<(MessageModel, bool)>::empty(),
        },
{
}

/// Law: a relay emits exactly one downstream copy of every diff a systems
/// tick applies, in diff order, and nothing else.
pub proof fn lemma_relay_forwards_diffs(
    s: StoreModel,
    diffs: Seq<(EntityId, ComponentTypeId, AnyComponent)>,
)
    ensures
        spec_apply_diffs(RuntimeRole::Intermediate, s, diffs).sends =~= diffs.map(
            |i: int, d: (EntityId, ComponentTypeId, AnyComponent)| (
                MessageModel::ComponentUpdate(d.0, d.1, d.2),
                true,
            ),
        ),
    decreases diffs.len(),
{
    let f = |i: int, d: (EntityId, ComponentTypeId, AnyComponent)| (
        MessageModel::ComponentUpdate(d.0, d.1, d.2),
        true,
    );
    if diffs.len() > 0 {
        lemma_relay_forwards_diffs(s, diffs.drop_last());
        assert(diffs.drop_last().map(f) =~= diffs.map(f).drop_last());
        assert(diffs.map(f).drop_last().push(diffs.map(f).last()) =~= diffs.map(f));
    }
}


/// Law: a relay's systems tick never sends upstream, whatever the tick
/// length: applying its diffs emits exactly one downstream forward per diff,
/// every one with the forward hint set.
pub proof fn lemma_relay_tick_forwards_only(s: StoreModel, dt: int)
    ensures
        spec_apply_diffs(RuntimeRole::Intermediate, s, physics_diffs(s, dt)).sends =~= physics_diffs(
            s,
            dt,
        ).map(
            |i: int, d: (EntityId, ComponentTypeId, AnyComponent)| (
                MessageModel::ComponentUpdate(d.0, d.1, d.2),
                true,
            ),
        ),
{
    lemma_relay_forwards_diffs(s, physics_diffs(s, dt));
}

/// Law: the authority's systems tick broadcasts every diff to its peers
/// without the forward hint, one send per diff, and forwards nothing
/// downstream.
pub proof fn lemma_master_broadcasts_diffs(
    s: StoreModel,
    diffs: Seq<(EntityId, ComponentTypeId, AnyComponent)>,
)
    ensures
        spec_apply_diffs(RuntimeRole::Master, s, diffs).sends =~= diffs.map(
            |i: int, d: (EntityId, ComponentTypeId, AnyComponent)| (
                MessageModel::ComponentUpdate(d.0, d.1, d.2),
                false,
            ),
        ),
    decreases diffs.len(),
{
    let f = |i: int, d: (EntityId, ComponentTypeId, AnyComponent)| (
        MessageModel::ComponentUpdate(d.0, d.1, d.2),
        false,
    );
    if diffs.len() > 0 {
        lemma_master_broadcasts_diffs(s, diffs.drop_last());
        assert(diffs.drop_last().map(f) =~= diffs.map(f).drop_last());
        assert(diffs.map(f).drop_last().push(diffs.map(f).last()) =~= diffs.map(f));
    }
}

/// Law: a passive instance's systems tick emits nothing at all.
pub proof fn lemma_renderer_tick_silent(
    s: StoreModel,
    diffs: Seq<(EntityId, ComponentTypeId, AnyComponent)>,
)
    ensures
        spec_apply_diffs(RuntimeRole::Renderer, s, diffs).sends =~= Seq::<
            (MessageModel, bool),
        >::empty(),
    decreases diffs.len(),
{
    if diffs.len() > 0 {
        lemma_renderer_tick_silent(s, diffs.drop_last());
    }
}

/// Law: in response to a received raw input the authority queues exactly the
/// resolved entity-create, broadcast to its peers without the forward hint;
/// the raw input itself it never re-emits.
pub proof fn lemma_master_broadcasts_resolved_input(s: StoreModel, input: Input)
    ensures
        match spec_resolve_input(s, input) {
            Some((s1, resolved)) => resolved is EntityCreate && spec_apply(
                RuntimeRole::Master,
                s,
                MessageModel::Input(input),
            ).sends =~= seq![(resolved, false)],
            None => spec_apply(RuntimeRole::Master, s, MessageModel::Input(input)).sends =~= Seq::<
                (MessageModel, bool),
            >::empty(),
        },
{
}

/// Law: over a whole batch of received inputs the authority's sends are
/// exactly the resolved entity-create broadcasts: never a raw input and never
/// a downstream forward. Only a relay re-emits a raw input upstream.
pub proof fn lemma_master_inputs_broadcast_only(s: StoreModel, inputs: Seq<Input>)
    ensures
        ({
            let sends = spec_apply_inputs(RuntimeRole::Master, s, inputs).sends;
            forall|t: int| 0 <= t < sends.len() ==> sends[t].0 is EntityCreate && !sends[t].1
        }),
    decreases inputs.len(),
{
    if inputs.len() > 0 {
        let prev = spec_apply_inputs(RuntimeRole::Master, s, inputs.drop_last());
        lemma_master_inputs_broadcast_only(s, inputs.drop_last());
        lemma_master_broadcasts_resolved_input(prev.store, inputs.last());
        let eff = spec_apply(RuntimeRole::Master, prev.store, MessageModel::Input(inputs.last()));
        let sends = spec_apply_inputs(RuntimeRole::Master, s, inputs).sends;
        assert forall|t: int| 0 <= t < sends.len() implies sends[t].0 is EntityCreate
            && !sends[t].1 by {
            if t < prev.sends.len() {
                assert(sends[t] == prev.sends[t]);
            } else {
                assert(sends[t] == eff.sends[t - prev.sends.len()]);
            }
        }
    }
}

/// Law: a passive instance never emits anything, whatever it is handed; the
/// one message that would oblige it to send is refused as a contract
/// violation.
pub proof fn lemma_renderer_never_sends(s: StoreModel, m: MessageModel)
    ensures
        spec_apply(RuntimeRole::Renderer, s, m).sends =~= Seq::<(MessageModel, bool)>::empty(),
        m is NeedLoad ==> spec_apply(RuntimeRole::Renderer, s, m).result == Err::<
            (),
            RuntimeError,
        >(RuntimeError::TxFromRenderer),
{
}

/// The replication runtime: the store, the fixed role, the registered
/// systems, and the outbox of pending sends.
pub struct Runtime {
    ecs: ECS,
    role: RuntimeRole,
    physics: PhysicsSystem,
    outbox: Vec<(RuntimeMessage, bool)>,
}

impl View for Runtime {
    type V = RuntimeModel;

    closed spec fn view(&self) -> RuntimeModel {
        RuntimeModel { store: self.ecs@, role: self.role, outbox: outbox_view(self.outbox@) }
    }
}

proof fn lemma_outbox_push(v: Seq<(RuntimeMessage, bool)>, x: (RuntimeMessage, bool))
    ensures
        outbox_view(v.push(x)) =~= outbox_view(v).push((x.0@, x.1)),
{
}

impl Runtime {
    /// The store is consistent.
    pub closed spec fn wf(&self) -> bool {
        self.ecs.wf()
    }

    /// A runtime of the given role over an empty store. A fresh relay
    /// immediately requests a full snapshot from upstream; the other roles
    /// start silent.
    pub fn new(role: RuntimeRole) -> (r: Runtime)
        ensures
            r.wf(),
            r@.role == role,
            r@.store == StoreModel::empty(),
            r@.outbox == if role == RuntimeRole::Intermediate {
                seq![(MessageModel::NeedLoad, false)]
            } else {
                Seq::<(MessageModel, bool)>::empty()
            },
    {
        let mut outbox: Vec<(RuntimeMessage, bool)> = Vec::new();
        if role == RuntimeRole::Intermediate {
            outbox.push((RuntimeMessage::NeedLoad, false));
        }
        let r = Runtime { ecs: ECS::new(), role, physics: PhysicsSystem::new(), outbox };
        proof {
            if role == RuntimeRole::Intermediate {
                assert(r@.outbox =~= seq![(MessageModel::NeedLoad, false)]);
            } else {
                assert(r@.outbox =~= Seq::<(MessageModel, bool)>::empty());
            }
        }
        r
    }

    /// Read-only access to the store for the presentation side.
    pub fn ecs(&self) -> (r: &ECS)
        ensures
            r@ == self@.store,
            self.wf() ==> r.wf(),
    {
        &self.ecs
    }

    /// Drain the outbox: the pending sends in order, each with its routing
    /// hint (`true` means the downstream passive channel).
    pub fn take_outbox(&mut self) -> (r: Vec<(RuntimeMessage, bool)>)
        ensures
            final(self).wf() == old(self).wf(),
            final(self)@.store == old(self)@.store,
            final(self)@.role == old(self)@.role,
            final(self)@.outbox == Seq::<(MessageModel, bool)>::empty(),
            outbox_view(r@) == old(self)@.outbox,
    {
        let mut r: Vec<(RuntimeMessage, bool)> = Vec::new();
        core::mem::swap(&mut r, &mut self.outbox);
        proof {
            assert(outbox_view(self.outbox@) =~= Seq::<(MessageModel, bool)>::empty());
        }
        r
    }

    /// Resolve a raw input: reserve a fresh id and build the entity-create
    /// message carrying the input's body. `None` only where the id space is
    /// exhausted; the store is untouched then.
    ///
    /// The reserved id comes from the process-local counter: tiers that
    /// translate inputs optimistically mint ids that no other tier
    /// coordinates, so two independently counting peers can collide. This
    /// mirrors the protocol as designed; reconciliation is an open question
    /// of the protocol, not of this function.
    fn process_input(&mut self, input: Input) -> (r: Option<RuntimeMessage>)
        requires
            old(self).wf(),
        ensures
            final(self).wf(),
            final(self)@.role == old(self)@.role,
            final(self)@.outbox == old(self)@.outbox,
            match spec_resolve_input(old(self)@.store, input) {
                Some((s1, m)) => r matches Some(msg) && msg@ == m && final(self)@.store == s1,
                None => r is None && final(self)@.store == old(self)@.store,
            },
    {
        match input {
            Input::CreateEntity(position) => {
                match self.ecs.reserve_id() {
                    Some(eid) => {
                        let mut comps: Vec<AnyComponent> = Vec::new();
                        comps.push(position.into_any());
                        proof {
                            assert(comps@ =~= seq![AnyComponent::Body(position)]);
                        }
                        Some(RuntimeMessage::EntityCreate(eid, comps))
                    },
                    None => None,
                }
            },
        }
    }

    /// Apply a message that is not a raw input: a relay forwards a
    /// state-bearing kind downstream, and the local effect follows the kind;
    /// the forward and the local apply are not ordered against each other.
    fn apply_resolved(&mut self, message: RuntimeMessage) -> (r: Result<(), RuntimeError>)
        requires
            old(self).wf(),
            !(message@ is Input),
        ensures
            final(self).wf(),
            final(self)@.role == old(self)@.role,
            ({
                let eff = spec_apply_resolved(old(self)@.role, old(self)@.store, message@);
                &&& final(self)@.store == eff.store
                &&& final(self)@.outbox == old(self)@.outbox + eff.sends
                &&& r == eff.result
            }),
    {
        let ghost pre = *old(self);
        match message {
            RuntimeMessage::NeedLoad => {
                if self.role == RuntimeRole::Renderer {
                    proof {
                        assert(self@.outbox =~= pre@.outbox + Seq::<(MessageModel, bool)>::empty());
                    }
                    return Err(RuntimeError::TxFromRenderer);
                }
                let provision = self.provision();
                let ghost snap = pre@.store.snapshot();
                self.outbox.push((RuntimeMessage::Load(provision), false));
                proof {
                    lemma_outbox_push(pre.outbox@, (RuntimeMessage::Load(provision), false));
                    assert(self@.outbox =~= pre@.outbox + seq![
                        (MessageModel::Load(snap), false),
                    ]);
                }
                Ok(())
            },
            RuntimeMessage::Load(entities) => {
                let ghost evs = message@->Load_0;
                let n = entities.len();
                let mut k: usize = 0;
                while k < n
                    invariant
                        pre == *old(self),
                        n == entities@.len(),
                        k <= n,
                        self.wf(),
                        evs =~= entities@.map(
                            |i: int, p: (EntityId, Vec<AnyComponent>)| (p.0, p.1@),
                        ),
                        self@.role == pre@.role,
                        self@.outbox == pre@.outbox,
                        self@.store == pre@.store.load(evs.take(k as int)),
                    decreases n - k,
                {
                    let entry = &entities[k];
                    proof {
                        assert(evs.take(k + 1 as int).drop_last() =~= evs.take(k as int));
                        assert(evs.take(k + 1 as int).last() == evs[k as int]);
                    }
                    self.ecs.create_entity(entry.0, &entry.1);
                    k = k + 1;
                }
                proof {
                    assert(evs.take(n as int) =~= evs);
                }
                if self.role == RuntimeRole::Intermediate {
                    self.outbox.push((RuntimeMessage::Load(entities), true));
                    proof {
                        lemma_outbox_push(pre.outbox@, (RuntimeMessage::Load(entities), true));
                        assert(self@.outbox =~= pre@.outbox + seq![
                            (MessageModel::Load(evs), true),
                        ]);
                    }
                } else {
                    proof {
                        assert(self@.outbox =~= pre@.outbox + Seq::<(MessageModel, bool)>::empty());
                    }
                }
                Ok(())
            },
            RuntimeMessage::EntityCreate(eid, comps) => {
                self.ecs.create_entity(eid, &comps);
                if self.role == RuntimeRole::Intermediate {
                    self.outbox.push((RuntimeMessage::EntityCreate(eid, comps), true));
                    proof {
                        assert(self@.outbox =~= pre@.outbox + spec_apply_resolved(
                            pre@.role,
                            pre@.store,
                            message@,
                        ).sends);
                    }
                } else {
                    proof {
                        assert(self@.outbox =~= pre@.outbox + Seq::<(MessageModel, bool)>::empty());
                    }
                }
                Ok(())
            },
            RuntimeMessage::ComponentUpdate(eid, ctid, comp) => {
                let res = self.ecs.update_component(eid, ctid, comp);
                if self.role == RuntimeRole::Intermediate {
                    self.outbox.push((RuntimeMessage::ComponentUpdate(eid, ctid, comp), true));
                    proof {
                        assert(self@.outbox =~= pre@.outbox + spec_apply_resolved(
                            pre@.role,
                            pre@.store,
                            message@,
                        ).sends);
                    }
                } else {
                    proof {
                        assert(self@.outbox =~= pre@.outbox + Seq::<(MessageModel, bool)>::empty());
                    }
                }
                match res {
                    Ok(_) => Ok(()),
                    Err(EcsError::UnknownComponentType) => Err(RuntimeError::UnknownComponentType),
                }
            },
            RuntimeMessage::Input(_) => {
                proof {
                    assert(self@.outbox =~= pre@.outbox + Seq::<(MessageModel, bool)>::empty());
                }
                Ok(())
            },
        }
    }

    /// Gather the full dump of the store: every live entity with its present
    /// components, in insertion order.
    fn provision(&self) -> (r: Vec<(EntityId, Vec<AnyComponent>)>)
        requires
            self.wf(),
        ensures
            r@.map(|i: int, p: (EntityId, Vec<AnyComponent>)| (p.0, p.1@)) == self@.store.snapshot(),
    {
        let eids = self.ecs.live_eids();
        let n = eids.len();
        let mut r: Vec<(EntityId, Vec<AnyComponent>)> = Vec::new();
        let mut k: usize = 0;
        while k < n
            invariant
                n == eids@.len(),
                k <= n,
                self.wf(),
                eids@ == self@.store.order,
                r@.len() == k,
                forall|t: int|
                    0 <= t < k ==> r@[t].0 == eids@[t] && r@[t].1@ == self@.store.entity_anys(
                        eids@[t],
                    ),
            decreases n - k,
        {
            let eid = eids[k];
            let anys = self.ecs.get_entity_anys(eid);
            r.push((eid, anys));
            k = k + 1;
        }
        proof {
            assert(r@.map(|i: int, p: (EntityId, Vec<AnyComponent>)| (p.0, p.1@))
                =~= self@.store.snapshot());
        }
        r
    }

    /// Apply one inbound message: resolve it if it is a raw input, route and
    /// apply the result; the authority broadcasts the resolved state change
    /// of an input to its peers. An erroring message is dropped without
    /// touching the slots it could not change; the runtime stays usable.
    pub fn apply_message(&mut self, message: RuntimeMessage) -> (r: Result<(), RuntimeError>)
        requires
            old(self).wf(),
        ensures
            final(self).wf(),
            final(self)@.role == old(self)@.role,
            ({
                let eff = spec_apply(old(self)@.role, old(self)@.store, message@);
                &&& final(self)@.store == eff.store
                &&& final(self)@.outbox == old(self)@.outbox + eff.sends
                &&& r == eff.result
            }),
    {
        match message {
            RuntimeMessage::Input(input) => {
                let resolved: RuntimeMessage = match self.process_input(input) {
                    Some(m) => m,
                    None => {
                        proof {
                            assert(self@.outbox =~= old(self)@.outbox + Seq::<(
                                MessageModel,
                                bool,
                            )>::empty());
                        }
                        return Err(RuntimeError::IdSpaceExhausted);
                    },
                };
                let ghost resolved_model = resolved@;
                match resolved {
                    RuntimeMessage::EntityCreate(eid, comps) => {
                        let res = self.apply_resolved(RuntimeMessage::EntityCreate(eid, comps));
                        if self.role == RuntimeRole::Master {
                            let position = match input {
                                Input::CreateEntity(p) => p,
                            };
                            let mut peer_comps: Vec<AnyComponent> = Vec::new();
                            peer_comps.push(position.into_any());
                            let ghost before_peer = self.outbox@;
                            self.outbox.push((
                                RuntimeMessage::EntityCreate(eid, peer_comps),
                                false,
                            ));
                            proof {
                                lemma_outbox_push(
                                    before_peer,
                                    (RuntimeMessage::EntityCreate(eid, peer_comps), false),
                                );
                                assert(peer_comps@ =~= seq![AnyComponent::Body(position)]);
                                assert(self@.outbox =~= old(self)@.outbox + spec_apply(
                                    old(self)@.role,
                                    old(self)@.store,
                                    message@,
                                ).sends);
                            }
                        } else {
                            proof {
                                let eff = spec_apply_resolved(
                                    old(self)@.role,
                                    spec_resolve_input(old(self)@.store, input)->Some_0.0,
                                    resolved_model,
                                );
                                assert(self@.outbox =~= old(self)@.outbox + (eff.sends + Seq::<(
                                    MessageModel,
                                    bool,
                                )>::empty()));
                            }
                        }
                        res
                    },
                    _ => unreached(),
                }
            },
            other => self.apply_resolved(other),
        }
    }

    /// One simulation tick of `dt` milliseconds: run every registered system
    /// on the store, then apply each proposed update locally; the authority
    /// alone broadcasts each update to its peers.
    pub fn systems_tick(&mut self, dt: i64)
        requires
            old(self).wf(),
            0 <= dt <= MAX_TICK_DT,
        ensures
            final(self).wf(),
            final(self)@.role == old(self)@.role,
            ({
                let eff = spec_apply_diffs(
                    old(self)@.role,
                    old(self)@.store,
                    physics_diffs(old(self)@.store, dt as int),
                );
                &&& final(self)@.store == eff.store
                &&& final(self)@.outbox == old(self)@.outbox + eff.sends
            }),
    {
        let ghost pre = *old(self);
        let diffs = self.physics.tick(&self.ecs, dt);
        let ghost dseq = diffs@;
        let n = diffs.len();
        let mut k: usize = 0;
        while k < n
            invariant
                pre == *old(self),
                n == dseq.len(),
                k <= n,
                diffs@ == dseq,
                dseq == physics_diffs(pre@.store, dt as int),
                self.wf(),
                self@.role == pre@.role,
                ({
                    let eff = spec_apply_diffs(pre@.role, pre@.store, dseq.take(k as int));
                    &&& self@.store == eff.store
                    &&& self@.outbox == pre@.outbox + eff.sends
                }),
            decreases n - k,
        {
            let (eid, ctid, comp) = diffs[k];
            proof {
                assert(dseq.take(k + 1 as int).drop_last() =~= dseq.take(k as int));
                assert(dseq.take(k + 1 as int).last() == dseq[k as int]);
            }
            let _ = self.apply_resolved(RuntimeMessage::ComponentUpdate(eid, ctid, comp));
            if self.role == RuntimeRole::Master {
                let ghost before_peer = *self;
                self.outbox.push((RuntimeMessage::ComponentUpdate(eid, ctid, comp), false));
                proof {
                    lemma_outbox_push(
                        before_peer.outbox@,
                        (RuntimeMessage::ComponentUpdate(eid, ctid, comp), false),
                    );
                }
            }
            proof {
                let eff = spec_apply_diffs(pre@.role, pre@.store, dseq.take(k + 1 as int));
                assert(self@.outbox =~= pre@.outbox + eff.sends);
            }
            k = k + 1;
        }
        proof {
            assert(dseq.take(n as int) =~= dseq);
        }
    }

    /// One I/O tick: apply every inbound message in arrival order, then every
    /// local input; a relay also sends each raw input upstream.
    pub fn io_tick(&mut self, inputs: Vec<Input>, messages: Vec<RuntimeMessage>)
        requires
            old(self).wf(),
        ensures
            final(self).wf(),
            final(self)@.role == old(self)@.role,
            ({
                let msgs_eff = spec_apply_msgs(
                    old(self)@.role,
                    old(self)@.store,
                    msgs_view(messages@),
                );
                let ins_eff = spec_apply_inputs(old(self)@.role, msgs_eff.store, inputs@);
                &&& final(self)@.store == ins_eff.store
                &&& final(self)@.outbox == old(self)@.outbox + msgs_eff.sends + ins_eff.sends
            }),
    {
        let ghost pre = *old(self);
        let ghost orig_msgs = msgs_view(messages@);
        let ghost orig_inputs = inputs@;
        let mut messages = messages;
        let mut inputs = inputs;
        let ghost mut k: int = 0;
        while messages.len() > 0
            invariant
                pre == *old(self),
                0 <= k,
                k + messages@.len() == orig_msgs.len(),
                msgs_view(messages@) =~= orig_msgs.skip(k),
                self.wf(),
                self@.role == pre@.role,
                ({
                    let eff = spec_apply_msgs(pre@.role, pre@.store, orig_msgs.take(k));
                    &&& self@.store == eff.store
                    &&& self@.outbox == pre@.outbox + eff.sends
                }),
            decreases messages@.len(),
        {
            let ghost msgs_before = messages@;
            let m = messages.remove(0);
            proof {
                assert(msgs_view(msgs_before)[0] == msgs_before[0]@);
                assert(orig_msgs.skip(k)[0] == orig_msgs[k]);
                assert(m@ == orig_msgs[k]);
                assert(messages@ =~= msgs_before.skip(1));
                assert forall|t: int| 0 <= t < messages@.len() implies msgs_view(messages@)[t]
                    == orig_msgs.skip(k + 1)[t] by {
                    assert(messages@[t] == msgs_before[t + 1]);
                    assert(msgs_view(msgs_before)[t + 1] == msgs_before[t + 1]@);
                    assert(orig_msgs.skip(k)[t + 1] == orig_msgs[k + 1 + t]);
                }
                assert(msgs_view(messages@) =~= orig_msgs.skip(k + 1));
                assert(orig_msgs.take(k + 1).drop_last() =~= orig_msgs.take(k));
                assert(orig_msgs.take(k + 1).last() == orig_msgs[k]);
            }
            let _ = self.apply_message(m);
            proof {
                k = k + 1;
                let eff = spec_apply_msgs(pre@.role, pre@.store, orig_msgs.take(k));
                assert(self@.outbox =~= pre@.outbox + eff.sends);
            }
        }
        let ghost mid = spec_apply_msgs(pre@.role, pre@.store, orig_msgs);
        proof {
            assert(orig_msgs.take(k) =~= orig_msgs);
        }
        let ghost mut j: int = 0;
        while inputs.len() > 0
            invariant
                pre == *old(self),
                0 <= j,
                j + inputs@.len() == orig_inputs.len(),
                inputs@ =~= orig_inputs.skip(j),
                mid == spec_apply_msgs(pre@.role, pre@.store, orig_msgs),
                self.wf(),
                self@.role == pre@.role,
                ({
                    let eff = spec_apply_inputs(pre@.role, mid.store, orig_inputs.take(j));
                    &&& self@.store == eff.store
                    &&& self@.outbox == pre@.outbox + mid.sends + eff.sends
                }),
            decreases inputs@.len(),
        {
            let ghost inputs_before = inputs@;
            let input = inputs.remove(0);
            proof {
                assert(orig_inputs.skip(j)[0] == orig_inputs[j]);
                assert(input == orig_inputs[j]);
                assert(inputs@ =~= inputs_before.skip(1));
                assert(inputs@ =~= orig_inputs.skip(j + 1));
                assert(orig_inputs.take(j + 1).drop_last() =~= orig_inputs.take(j));
                assert(orig_inputs.take(j + 1).last() == orig_inputs[j]);
            }
            let _ = self.apply_message(RuntimeMessage::Input(input));
            if self.role == RuntimeRole::Intermediate {
                let ghost before_up = *self;
                self.outbox.push((RuntimeMessage::Input(input), false));
                proof {
                    lemma_outbox_push(before_up.outbox@, (RuntimeMessage::Input(input), false));
                }
            }
            proof {
                j = j + 1;
                let eff = spec_apply_inputs(pre@.role, mid.store, orig_inputs.take(j));
                assert(self@.outbox =~= pre@.outbox + mid.sends + eff.sends);
            }
        }
        proof {
            assert(orig_inputs.take(j) =~= orig_inputs);
        }
    }
}

} // verus!
