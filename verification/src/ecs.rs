//! The entity/component store.
//!
//! Entities are opaque ids; each entity owns at most one component per kind of
//! the closed set. The store is modelled by [`StoreModel`]: the map from live
//! entity ids to their body component, the live ids in insertion order, and
//! the id-reservation counter. Every operation of [`ECS`] is specified against
//! that model.

use vstd::prelude::*;

use crate::components::{AnyComponent, BodyComponent};

verus! {

/// Process-local entity identifier.
pub type EntityId = usize;

/// Identifier of a component kind in the closed set.
pub type ComponentTypeId = usize;

/// A concrete component that can be wrapped into the type-erased envelope.
pub trait Component: Sized {
    /// The envelope this component wraps into.
    spec fn spec_any(self) -> AnyComponent;

    /// Kind id of this component.
    fn ctid(&self) -> (r: ComponentTypeId)
        ensures
            r == self.spec_any().spec_ctid(),
    ;

    /// Wrap this component into the envelope.
    fn into_any(self) -> (r: AnyComponent)
        ensures
            r == self.spec_any(),
    ;

    /// Wrap a copy of this component into the envelope.
    fn as_any(&self) -> (r: AnyComponent)
        ensures
            r == self.spec_any(),
    ;
}

/// A component kind of the closed set, with its statically known kind id.
pub trait ComponentType {
    /// Kind id of the implementing kind.
    spec fn spec_member_ctid() -> ComponentTypeId;

    /// Kind id of the implementing kind.
    fn member_ctid() -> (r: ComponentTypeId)
        ensures
            r == Self::spec_member_ctid(),
    ;
}

/// Error of a store operation: the named component kind is outside the closed
/// set.
#[derive(Clone, Copy, Debug, PartialEq, Eq, Structural)]
pub enum EcsError {
    UnknownComponentType,
}

/// Mathematical model of the store.
#[verifier::ext_equal]
pub ghost struct StoreModel {
    /// Body component of each live entity.
    pub bodies: Map<EntityId, BodyComponent>,
    /// Live entity ids, in insertion order, without duplicates.
    pub order: Seq<EntityId>,
    /// Counter from which fresh ids are reserved.
    pub next_id: EntityId,
}

impl StoreModel {
    /// The store of a fresh process: no entities, counter at its start value.
    pub open spec fn empty() -> StoreModel {
        StoreModel { bodies: Map::empty(), order: Seq::empty(), next_id: 1 }
    }

    /// The model is consistent: ids never repeat and the live list carries
    /// exactly the ids that own a component.
    pub open spec fn wf(self) -> bool {
        &&& (forall|i: int, j: int|
            0 <= i < j < self.order.len() ==> self.order[i] != self.order[j])
        &&& self.bodies.dom() == self.order.to_set()
        &&& self.bodies.dom().finite()
    }

    /// Overwrite (or create) the body slot of `eid`; a new entity joins the
    /// live list at the end.
    pub open spec fn upd(self, eid: EntityId, b: BodyComponent) -> StoreModel {
        StoreModel {
            bodies: self.bodies.insert(eid, b),
            order: if self.bodies.contains_key(eid) {
                self.order
            } else {
                self.order.push(eid)
            },
            next_id: self.next_id,
        }
    }

    /// Insert one enveloped component under `eid`.
    pub open spec fn apply_component(self, eid: EntityId, comp: AnyComponent) -> StoreModel {
        match comp {
            AnyComponent::Body(b) => self.upd(eid, b),
        }
    }

    /// Insert the given components under `eid`, in order; on one kind the last
    /// write wins.
    pub open spec fn create(self, eid: EntityId, comps: Seq<AnyComponent>) -> StoreModel
        decreases comps.len(),
    {
        if comps.len() == 0 {
            self
        } else {
            self.create(eid, comps.drop_last()).apply_component(eid, comps.last())
        }
    }

    /// The components present under `eid`, enveloped, one entry per kind held.
    pub open spec fn entity_anys(self, eid: EntityId) -> Seq<AnyComponent> {
        if self.bodies.contains_key(eid) {
            seq![AnyComponent::Body(self.bodies[eid])]
        } else {
            Seq::empty()
        }
    }

    /// The aligned per-kind tuple of `eid`: one slot per kind of the closed
    /// set, `None` where absent.
    pub open spec fn entity_view(self, eid: EntityId) -> Seq<Option<AnyComponent>> {
        seq![
            if self.bodies.contains_key(eid) {
                Some(AnyComponent::Body(self.bodies[eid]))
            } else {
                None
            },
        ]
    }

    /// Full dump of the store: every live entity with its present components,
    /// in insertion order.
    pub open spec fn snapshot(self) -> Seq<(EntityId, Seq<AnyComponent>)> {
        self.order.map(|i: int, eid: EntityId| (eid, self.entity_anys(eid)))
    }

    /// Replay a dump into this store, entity by entity.
    pub open spec fn load(self, entities: Seq<(EntityId, Seq<AnyComponent>)>) -> StoreModel
        decreases entities.len(),
    {
        if entities.len() == 0 {
            self
        } else {
            self.load(entities.drop_last()).create(
                entities.last().0,
                entities.last().1,
            )
        }
    }

    /// The live slots of the single body kind, in insertion order.
    pub open spec fn slots(self) -> Seq<(EntityId, BodyComponent)> {
        self.order.map(|i: int, eid: EntityId| (eid, self.bodies[eid]))
    }
}

/// The smallest id above `lo` whose slot is free, or `None` where every id of
/// the remaining id space is taken.
pub open spec fn first_free(bodies: Map<EntityId, BodyComponent>, lo: int) -> Option<EntityId>
    decreases usize::MAX - lo,
{
    if lo >= usize::MAX {
        None
    } else if !bodies.contains_key((lo + 1) as usize) {
        Some((lo + 1) as usize)
    } else {
        first_free(bodies, lo + 1)
    }
}

/// What reserving an id does to the store: the counter moves to the first
/// free id above its old value, which is the id handed out.
pub open spec fn spec_reserve(s: StoreModel) -> Option<(EntityId, StoreModel)> {
    match first_free(s.bodies, s.next_id as int) {
        Some(id) => Some((id, StoreModel { next_id: id, ..s })),
        None => None,
    }
}

/// The map held by an association list: later entries win.
pub open spec fn map_of_slots(s: Seq<(EntityId, BodyComponent)>) -> Map<EntityId, BodyComponent>
    decreases s.len(),
{
    if s.len() == 0 {
        Map::empty()
    } else {
        map_of_slots(s.drop_last()).insert(s.last().0, s.last().1)
    }
}

/// The keys of an association list, in order.
pub open spec fn keys_of_slots(s: Seq<(EntityId, BodyComponent)>) -> Seq<EntityId> {
    s.map(|i: int, p: (EntityId, BodyComponent)| p.0)
}

/// The keys of an association list never repeat.
pub open spec fn unique_keys(s: Seq<(EntityId, BodyComponent)>) -> bool {
    forall|i: int, j: int| 0 <= i < j < s.len() ==> s[i].0 != s[j].0
}

proof fn lemma_map_of_slots_dom(s: Seq<(EntityId, BodyComponent)>)
    ensures
        map_of_slots(s).dom() =~= keys_of_slots(s).to_set(),
        map_of_slots(s).dom().finite(),
    decreases s.len(),
{
    if s.len() == 0 {
        assert(keys_of_slots(s).to_set() =~= Set::<EntityId>::empty());
    } else {
        lemma_map_of_slots_dom(s.drop_last());
        assert(keys_of_slots(s.drop_last()) =~= keys_of_slots(s).drop_last());
        assert(keys_of_slots(s).to_set() =~= keys_of_slots(s).drop_last().to_set().insert(
            s.last().0,
        )) by {
            let ks = keys_of_slots(s);
            assert forall|k: EntityId| ks.to_set().contains(k) implies ks.drop_last().to_set().insert(
                s.last().0,
            ).contains(k) by {
                let i = choose|i: int| 0 <= i < ks.len() && ks[i] == k;
                if i < ks.len() - 1 {
                    assert(ks.drop_last()[i] == k);
                }
            }
            assert forall|k: EntityId| ks.drop_last().to_set().insert(s.last().0).contains(k)
                implies ks.to_set().contains(k) by {
                if ks.drop_last().to_set().contains(k) {
                    let i = choose|i: int| 0 <= i < ks.drop_last().len() && ks.drop_last()[i] == k;
                    assert(ks[i] == k);
                } else {
                    assert(ks[ks.len() - 1] == k);
                }
            }
        }
    }
}

proof fn lemma_slots_index(s: Seq<(EntityId, BodyComponent)>, i: int)
    requires
        unique_keys(s),
        0 <= i < s.len(),
    ensures
        map_of_slots(s).contains_key(s[i].0),
        map_of_slots(s)[s[i].0] == s[i].1,
    decreases s.len(),
{
    if i < s.len() - 1 {
        assert(unique_keys(s.drop_last()));
        lemma_slots_index(s.drop_last(), i);
        assert(s.drop_last()[i] == s[i]);
        assert(s[i].0 != s.last().0);
    }
}

proof fn lemma_slots_absent(s: Seq<(EntityId, BodyComponent)>, k: EntityId)
    requires
        forall|i: int| 0 <= i < s.len() ==> s[i].0 != k,
    ensures
        !map_of_slots(s).contains_key(k),
    decreases s.len(),
{
    if s.len() > 0 {
        assert(forall|i: int| 0 <= i < s.drop_last().len() ==> s.drop_last()[i].0 != k);
        lemma_slots_absent(s.drop_last(), k);
    }
}

proof fn lemma_map_of_slots_update(s: Seq<(EntityId, BodyComponent)>, i: int, b: BodyComponent)
    requires
        unique_keys(s),
        0 <= i < s.len(),
    ensures
        map_of_slots(s.update(i, (s[i].0, b))) =~= map_of_slots(s).insert(s[i].0, b),
    decreases s.len(),
{
    let t = s.update(i, (s[i].0, b));
    if i == s.len() - 1 {
        assert(t.drop_last() =~= s.drop_last());
        assert(t.last() == (s[i].0, b));
    } else {
        assert(unique_keys(s.drop_last()));
        assert(t.drop_last() =~= s.drop_last().update(i, (s[i].0, b)));
        assert(t.last() == s.last());
        lemma_map_of_slots_update(s.drop_last(), i, b);
        assert(s.drop_last()[i] == s[i]);
        // the two inserted keys differ, so the inserts commute
        assert(s[i].0 != s.last().0);
    }
}

/// The entity/component store: an arena of component slots keyed by entity id
/// and kind, plus the local id-reservation counter.
pub struct ECS {
    bodies: Vec<(EntityId, BodyComponent)>,
    next_id: EntityId,
}

impl View for ECS {
    type V = StoreModel;

    closed spec fn view(&self) -> StoreModel {
        StoreModel {
            bodies: map_of_slots(self.bodies@),
            order: keys_of_slots(self.bodies@),
            next_id: self.next_id,
        }
    }
}

impl ECS {
    /// The store never holds two slots of one entity and kind.
    pub closed spec fn wf(&self) -> bool {
        unique_keys(self.bodies@)
    }

    /// A consistent store has a consistent model.
    pub proof fn lemma_wf_model(&self)
        requires
            self.wf(),
        ensures
            self@.wf(),
    {
        lemma_map_of_slots_dom(self.bodies@);
    }

    /// A store with no entities; ids will be reserved from above the reserved
    /// low values.
    pub fn new() -> (r: Self)
        ensures
            r.wf(),
            r@ == StoreModel::empty(),
    {
        let r = ECS { bodies: Vec::new(), next_id: 1 };
        proof {
            assert(r@.bodies =~= StoreModel::empty().bodies);
            assert(r@.order =~= StoreModel::empty().order);
            assert(r@ =~= StoreModel::empty());
        }
        r
    }

    fn is_live(&self, eid: EntityId) -> (r: bool)
        requires
            self.wf(),
        ensures
            r == self@.bodies.contains_key(eid),
    {
        let n = self.bodies.len();
        let mut k: usize = 0;
        while k < n
            invariant
                n == self.bodies.len(),
                k <= n,
                self.wf(),
                forall|t: int| 0 <= t < k ==> self.bodies@[t].0 != eid,
            decreases n - k,
        {
            if self.bodies[k].0 == eid {
                proof {
                    lemma_slots_index(self.bodies@, k as int);
                }
                return true;
            }
            k = k + 1;
        }
        proof {
            lemma_slots_absent(self.bodies@, eid);
        }
        false
    }

    /// Point lookup of the body component of `eid`.
    pub fn get_component(&self, eid: EntityId) -> (r: Option<BodyComponent>)
        requires
            self.wf(),
        ensures
            r == if self@.bodies.contains_key(eid) {
                Some(self@.bodies[eid])
            } else {
                None::<BodyComponent>
            },
    {
        let n = self.bodies.len();
        let mut k: usize = 0;
        while k < n
            invariant
                n == self.bodies.len(),
                k <= n,
                self.wf(),
                forall|t: int| 0 <= t < k ==> self.bodies@[t].0 != eid,
            decreases n - k,
        {
            if self.bodies[k].0 == eid {
                proof {
                    lemma_slots_index(self.bodies@, k as int);
                }
                return Some(self.bodies[k].1);
            }
            k = k + 1;
        }
        proof {
            lemma_slots_absent(self.bodies@, eid);
        }
        None
    }

    fn set_body(&mut self, eid: EntityId, b: BodyComponent)
        requires
            old(self).wf(),
        ensures
            final(self).wf(),
            final(self)@ == old(self)@.upd(eid, b),
    {
        let ghost pre = *old(self);
        let n = self.bodies.len();
        let mut k: usize = 0;
        while k < n
            invariant
                pre == *old(self),
                n == self.bodies.len(),
                k <= n,
                self.bodies@ == pre.bodies@,
                self.next_id == pre.next_id,
                pre.wf(),
                forall|t: int| 0 <= t < k ==> self.bodies@[t].0 != eid,
            decreases n - k,
        {
            if self.bodies[k].0 == eid {
                self.bodies.set(k, (eid, b));
                proof {
                    lemma_slots_index(pre.bodies@, k as int);
                    lemma_map_of_slots_update(pre.bodies@, k as int, b);
                    assert(keys_of_slots(self.bodies@) =~= keys_of_slots(pre.bodies@));
                    assert(self@ =~= pre@.upd(eid, b));
                }
                return;
            }
            k = k + 1;
        }
        self.bodies.push((eid, b));
        proof {
            lemma_slots_absent(pre.bodies@, eid);
            assert(self.bodies@.drop_last() =~= pre.bodies@);
            assert(map_of_slots(self.bodies@) =~= map_of_slots(pre.bodies@).insert(eid, b));
            assert(keys_of_slots(self.bodies@) =~= keys_of_slots(pre.bodies@).push(eid));
            assert(self@ =~= pre@.upd(eid, b));
        }
    }

    /// Insert each given component under `eid`; an id new to the store joins
    /// the live list once.
    pub fn create_entity(&mut self, eid: EntityId, components: &Vec<AnyComponent>)
        requires
            old(self).wf(),
        ensures
            final(self).wf(),
            final(self)@ == old(self)@.create(eid, components@),
    {
        let ghost pre = *old(self);
        let n = components.len();
        let mut k: usize = 0;
        while k < n
            invariant
                n == components@.len(),
                k <= n,
                self.wf(),
                self@ == pre@.create(eid, components@.take(k as int)),
            decreases n - k,
        {
            let comp = components[k];
            proof {
                assert(components@.take(k + 1 as int).drop_last() =~= components@.take(k as int));
                assert(components@.take(k + 1 as int).last() == components@[k as int]);
            }
            match comp {
                AnyComponent::Body(b) => {
                    self.set_body(eid, b);
                },
            }
            k = k + 1;
        }
        proof {
            assert(components@.take(n as int) =~= components@);
        }
    }

    /// Overwrite (or create) the slot of `eid` under kind `ctid`; last write
    /// wins. A kind outside the closed set, or one not matching the envelope,
    /// is refused.
    pub fn update_component(&mut self, eid: EntityId, ctid: ComponentTypeId, component: AnyComponent) -> (r: Result<
        (),
        EcsError,
    >)
        requires
            old(self).wf(),
        ensures
            final(self).wf(),
            ctid == component.spec_ctid() ==> r == Ok::<(), EcsError>(()) && final(self)@ == old(
                self,
            )@.apply_component(eid, component),
            ctid != component.spec_ctid() ==> r == Err::<(), EcsError>(EcsError::UnknownComponentType)
                && final(self)@ == old(self)@,
    {
        if ctid != component.ctid() {
            return Err(EcsError::UnknownComponentType);
        }
        match component {
            AnyComponent::Body(b) => {
                self.set_body(eid, b);
            },
        }
        Ok(())
    }

    /// Reserve a fresh id: the first id above the counter that is not live.
    /// `None` only where the whole remaining id space is live.
    pub fn reserve_id(&mut self) -> (r: Option<EntityId>)
        requires
            old(self).wf(),
        ensures
            final(self).wf(),
            match spec_reserve(old(self)@) {
                Some((id, s1)) => r == Some(id) && final(self)@ == s1,
                None => r == None::<EntityId> && final(self)@ == old(self)@,
            },
            old(self)@.next_id + old(self)@.order.len() < usize::MAX ==> r is Some,
    {
        let ghost pre = *old(self);
        let mut candidate: EntityId = self.next_id;
        while candidate < usize::MAX
            invariant
                pre == *old(self),
                self.bodies@ == pre.bodies@,
                self.next_id == pre.next_id,
                pre.wf(),
                pre.next_id <= candidate <= usize::MAX,
                forall|j: EntityId| pre.next_id < j <= candidate ==> pre@.bodies.contains_key(j),
            decreases usize::MAX - candidate,
        {
            candidate = candidate + 1;
            if !self.is_live(candidate) {
                self.next_id = candidate;
                proof {
                    lemma_first_free_found(pre@.bodies, pre.next_id as int, candidate);
                    assert(self@ =~= (StoreModel { next_id: candidate, ..pre@ }));
                }
                return Some(candidate);
            }
        }
        proof {
            lemma_first_free_none(pre@.bodies, pre.next_id as int);
            assert(self@ =~= pre@);
            if pre@.next_id + pre@.order.len() < usize::MAX {
                pre.lemma_wf_model();
                lemma_full_interval_card(pre@.bodies.dom(), pre.next_id as int, usize::MAX as int);
                pre@.order.lemma_cardinality_of_set();
                assert(false);
            }
        }
        None
    }

    /// The live entity ids, in insertion order.
    pub fn live_eids(&self) -> (r: Vec<EntityId>)
        ensures
            r@ == self@.order,
    {
        let n = self.bodies.len();
        let mut r: Vec<EntityId> = Vec::new();
        let mut k: usize = 0;
        while k < n
            invariant
                n == self.bodies.len(),
                k <= n,
                r@.len() == k,
                forall|t: int| 0 <= t < k ==> r@[t] == self.bodies@[t].0,
            decreases n - k,
        {
            r.push(self.bodies[k].0);
            k = k + 1;
        }
        proof {
            assert(r@ =~= self@.order);
        }
        r
    }

    /// Full scan of the body kind: every live slot, in insertion order.
    pub fn get_components(&self) -> (r: Vec<(EntityId, BodyComponent)>)
        requires
            self.wf(),
        ensures
            r@ == self@.slots(),
    {
        let n = self.bodies.len();
        let mut r: Vec<(EntityId, BodyComponent)> = Vec::new();
        let mut k: usize = 0;
        while k < n
            invariant
                n == self.bodies.len(),
                k <= n,
                self.wf(),
                r@.len() == k,
                forall|t: int| 0 <= t < k ==> r@[t] == self.bodies@[t],
            decreases n - k,
        {
            r.push(self.bodies[k]);
            k = k + 1;
        }
        proof {
            assert forall|t: int| 0 <= t < n implies r@[t] == self@.slots()[t] by {
                lemma_slots_index(self.bodies@, t);
            }
            assert(r@ =~= self@.slots());
        }
        r
    }

    /// The components present under `eid`, enveloped.
    pub fn get_entity_anys(&self, eid: EntityId) -> (r: Vec<AnyComponent>)
        requires
            self.wf(),
        ensures
            r@ == self@.entity_anys(eid),
    {
        let mut r: Vec<AnyComponent> = Vec::new();
        match self.get_component(eid) {
            Some(b) => {
                r.push(AnyComponent::Body(b));
                proof {
                    assert(r@ =~= self@.entity_anys(eid));
                }
            },
            None => {
                proof {
                    assert(r@ =~= self@.entity_anys(eid));
                }
            },
        }
        r
    }

    /// The aligned per-kind tuple of `eid`: one slot per kind of the closed
    /// set, `None` where absent.
    pub fn get_entity(&self, eid: EntityId) -> (r: Vec<Option<AnyComponent>>)
        requires
            self.wf(),
        ensures
            r@ == self@.entity_view(eid),
    {
        let mut r: Vec<Option<AnyComponent>> = Vec::new();
        match self.get_component(eid) {
            Some(b) => {
                r.push(Some(AnyComponent::Body(b)));
            },
            None => {
                r.push(None);
            },
        }
        proof {
            assert(r@ =~= self@.entity_view(eid));
        }
        r
    }
}


proof fn lemma_first_free_gt(bodies: Map<EntityId, BodyComponent>, lo: int)
    requires
        0 <= lo,
    ensures
        match first_free(bodies, lo) {
            Some(id) => lo < id && !bodies.contains_key(id),
            None => true,
        },
    decreases usize::MAX - lo,
{
    if lo < usize::MAX && bodies.contains_key((lo + 1) as usize) {
        lemma_first_free_gt(bodies, lo + 1);
    }
}

proof fn lemma_reserve_chain_monotonic(states: Seq<StoreModel>, ids: Seq<EntityId>, i: int, j: int)
    requires
        states.len() == ids.len() + 1,
        forall|t: int|
            0 <= t < ids.len() ==> spec_reserve(states[t]) == Some((ids[t], states[t + 1])),
        0 <= i < j < ids.len(),
    ensures
        ids[i] < ids[j],
    decreases j - i,
{
    if i + 1 < j {
        lemma_reserve_chain_monotonic(states, ids, i, j - 1);
    }
    assert(spec_reserve(states[j - 1]) == Some((ids[j - 1], states[j])));
    assert(states[j].next_id == ids[j - 1]);
    assert(spec_reserve(states[j]) == Some((ids[j], states[j + 1])));
    lemma_first_free_gt(states[j].bodies, states[j].next_id as int);
}

/// Law: over any run of successful id reservations, with no other store
/// change in between, the returned ids are pairwise distinct, and each id is
/// outside the live set of the store it was reserved from.
pub proof fn lemma_reserved_ids_distinct(states: Seq<StoreModel>, ids: Seq<EntityId>)
    requires
        states.len() == ids.len() + 1,
        forall|t: int|
            0 <= t < ids.len() ==> spec_reserve(states[t]) == Some((ids[t], states[t + 1])),
    ensures
        forall|i: int, j: int| 0 <= i < j < ids.len() ==> ids[i] != ids[j],
        forall|i: int| 0 <= i < ids.len() ==> !states[i].bodies.contains_key(ids[i]),
{
    assert forall|i: int, j: int| 0 <= i < j < ids.len() implies ids[i] != ids[j] by {
        lemma_reserve_chain_monotonic(states, ids, i, j);
    }
    assert forall|i: int| 0 <= i < ids.len() implies !states[i].bodies.contains_key(ids[i]) by {
        assert(spec_reserve(states[i]) == Some((ids[i], states[i + 1])));
        lemma_first_free_gt(states[i].bodies, states[i].next_id as int);
    }
}

/// Law: a snapshot replayed into an empty store rebuilds the store it was
/// taken from, entity views and live order alike; only the id-reservation
/// counter is not carried over.
pub proof fn lemma_snapshot_round_trip(s: StoreModel)
    requires
        s.wf(),
    ensures
        StoreModel::empty().load(s.snapshot()).bodies == s.bodies,
        StoreModel::empty().load(s.snapshot()).order == s.order,
    decreases s.order.len(),
{
    let snap = s.snapshot();
    if s.order.len() == 0 {
        assert(snap =~= Seq::<(EntityId, Seq<AnyComponent>)>::empty());
        assert(s.bodies.dom() =~= Set::<EntityId>::empty());
        assert(s.bodies =~= Map::<EntityId, BodyComponent>::empty());
        assert(s.order =~= Seq::<EntityId>::empty());
    } else {
        let last = s.order.last();
        let sm = StoreModel {
            bodies: s.bodies.remove(last),
            order: s.order.drop_last(),
            next_id: s.next_id,
        };
        assert(s.order.to_set().contains(last));
        assert(s.bodies.contains_key(last));
        assert forall|t: int| 0 <= t < s.order.len() - 1 implies s.order[t] != last by {
            assert(s.order[t] != s.order[s.order.len() - 1]);
        }
        assert(sm.bodies.dom() =~= sm.order.to_set()) by {
            assert forall|k: EntityId| sm.order.to_set().contains(k) implies sm.bodies.dom().contains(
                k,
            ) by {
                let t = choose|t: int| 0 <= t < sm.order.len() && sm.order[t] == k;
                assert(s.order[t] == k);
                assert(s.order.to_set().contains(k));
                assert(k != last);
            }
            assert forall|k: EntityId| sm.bodies.dom().contains(k) implies sm.order.to_set().contains(
                k,
            ) by {
                assert(s.bodies.dom().contains(k) && k != last);
                assert(s.order.to_set().contains(k));
                let t = choose|t: int| 0 <= t < s.order.len() && s.order[t] == k;
                assert(t < s.order.len() - 1);
                assert(sm.order[t] == k);
            }
        }
        assert(sm.wf());
        lemma_snapshot_round_trip(sm);
        assert(snap.drop_last() =~= sm.snapshot()) by {
            assert forall|t: int| 0 <= t < snap.len() - 1 implies snap.drop_last()[t]
                == sm.snapshot()[t] by {
                assert(snap[t] == (s.order[t], s.entity_anys(s.order[t])));
                assert(sm.snapshot()[t] == (sm.order[t], sm.entity_anys(sm.order[t])));
                assert(s.order[t] != last);
                assert(sm.entity_anys(s.order[t]) =~= s.entity_anys(s.order[t]));
                assert(sm.entity_anys(s.order[t]) == s.entity_anys(s.order[t]));
            }
        }
        let rm = StoreModel::empty().load(snap.drop_last());
        assert(rm.bodies == sm.bodies && rm.order == sm.order);
        assert(StoreModel::empty().load(snap) == rm.create(last, snap.last().1));
        assert(snap.last() == (last, s.entity_anys(last)));
        let cs = seq![AnyComponent::Body(s.bodies[last])];
        assert(s.entity_anys(last) =~= cs);
        assert(s.entity_anys(last) == cs);
        assert(cs.drop_last() =~= Seq::<AnyComponent>::empty());
        assert(rm.create(last, cs.drop_last()) == rm);
        assert(rm.create(last, cs) == rm.upd(last, s.bodies[last]));
        assert(!rm.bodies.contains_key(last));
        assert(rm.upd(last, s.bodies[last]).bodies =~= s.bodies);
        assert(rm.upd(last, s.bodies[last]).order =~= s.order);
    }
}

proof fn lemma_first_free_found(bodies: Map<EntityId, BodyComponent>, lo: int, id: EntityId)
    requires
        0 <= lo < id,
        !bodies.contains_key(id),
        forall|j: EntityId| lo < j < id ==> bodies.contains_key(j),
    ensures
        first_free(bodies, lo) == Some(id),
    decreases id - lo,
{
    if lo + 1 < id {
        assert(bodies.contains_key((lo + 1) as usize));
        lemma_first_free_found(bodies, lo + 1, id);
    }
}

proof fn lemma_first_free_none(bodies: Map<EntityId, BodyComponent>, lo: int)
    requires
        0 <= lo,
        forall|j: EntityId| lo < j ==> bodies.contains_key(j),
    ensures
        first_free(bodies, lo) == None::<EntityId>,
    decreases usize::MAX - lo,
{
    if lo < usize::MAX {
        assert(bodies.contains_key((lo + 1) as usize));
        lemma_first_free_none(bodies, lo + 1);
    }
}

proof fn lemma_full_interval_card(s: Set<EntityId>, lo: int, hi: int)
    requires
        s.finite(),
        0 <= lo <= hi <= usize::MAX,
        forall|j: EntityId| lo < j <= hi ==> s.contains(j),
    ensures
        hi - lo <= s.len(),
    decreases hi - lo,
{
    if lo < hi {
        assert(s.contains(hi as usize));
        let s2 = s.remove(hi as usize);
        assert(forall|j: EntityId| lo < j <= hi - 1 ==> s2.contains(j));
        lemma_full_interval_card(s2, lo, hi - 1);
    }
}

} // verus!
