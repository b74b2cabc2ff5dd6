//! Per-tick simulation systems.
//!
//! A system is a pure function from the store and a tick length to a list of
//! proposed component updates; it never mutates the store itself. The runtime
//! alone applies and routes the proposals, so the same system can run on the
//! authoritative and on the predicting tier and produce comparable diffs.

use vstd::prelude::*;

use crate::components::{AnyComponent, BodyComponent, BODY_CTID};
use crate::ecs::{ComponentTypeId, EntityId, StoreModel, ECS};

verus! {

/// Largest accepted tick length, in milliseconds.
pub const MAX_TICK_DT: i64 = 1_000_000_000;

/// A body below this height keeps falling; at the limit exactly it rests.
pub const FALL_LIMIT: i64 = 600_000;

/// Fall speed: thousandths of a world unit gained on `y` per millisecond.
pub const FALL_RATE: i64 = 30;

/// Depth decay: thousandths of a world unit lost from a positive `z` per
/// millisecond.
pub const DEPTH_DECAY_RATE: i64 = 5;

/// A per-tick simulation system.
pub trait ComponentSystem {
    /// The updates this system proposes on the given store and tick length.
    spec fn spec_diffs(&self, s: StoreModel, dt: int) -> Seq<
        (EntityId, ComponentTypeId, AnyComponent),
    >;

    /// Run one tick: read the store and propose updates, mutating nothing.
    fn tick(&self, ecs: &ECS, dt: i64) -> (r: Vec<(EntityId, ComponentTypeId, AnyComponent)>)
        requires
            ecs.wf(),
            0 <= dt <= MAX_TICK_DT,
        ensures
            r@ == self.spec_diffs(ecs@, dt as int),
    ;
}

/// Whether the physics rules have work on this body: it is still below the
/// fall limit, or it still has positive depth. Both thresholds are exclusive.
pub open spec fn body_moves(b: BodyComponent) -> bool {
    b.y < FALL_LIMIT || b.z > 0
}

/// One physics step of a single body over `dt` milliseconds: below the fall
/// limit `y` gains `FALL_RATE * dt`; a positive depth `z` loses
/// `DEPTH_DECAY_RATE * dt`.
pub open spec fn step_body(b: BodyComponent, dt: int) -> BodyComponent {
    BodyComponent {
        y: if b.y < FALL_LIMIT {
            (b.y + FALL_RATE * dt) as i64
        } else {
            b.y
        },
        z: if b.z > 0 {
            (b.z - DEPTH_DECAY_RATE * dt) as i64
        } else {
            b.z
        },
        ..b
    }
}

/// The physics proposals over a list of body slots, in slot order: one update
/// per moving body.
pub open spec fn physics_diffs_of(
    slots: Seq<(EntityId, BodyComponent)>,
    dt: int,
) -> Seq<(EntityId, ComponentTypeId, AnyComponent)>
    decreases slots.len(),
{
    if slots.len() == 0 {
        Seq::empty()
    } else {
        let rest = physics_diffs_of(slots.drop_last(), dt);
        let (eid, b) = slots.last();
        if body_moves(b) {
            rest.push((eid, BODY_CTID, AnyComponent::Body(step_body(b, dt))))
        } else {
            rest
        }
    }
}

/// The physics proposals on a whole store: its live slots in insertion order.
pub open spec fn physics_diffs(s: StoreModel, dt: int) -> Seq<
    (EntityId, ComponentTypeId, AnyComponent),
> {
    physics_diffs_of(s.slots(), dt)
}

/// The physics system: gravity along `y` up to the fall limit, and
/// decay of positive depth `z`.
pub struct PhysicsSystem {}

impl PhysicsSystem {
    /// A physics system; it carries no state of its own.
    pub fn new() -> (r: Self) {
        PhysicsSystem {  }
    }
}

impl ComponentSystem for PhysicsSystem {
    open spec fn spec_diffs(&self, s: StoreModel, dt: int) -> Seq<
        (EntityId, ComponentTypeId, AnyComponent),
    > {
        physics_diffs(s, dt)
    }

    fn tick(&self, ecs: &ECS, dt: i64) -> (r: Vec<(EntityId, ComponentTypeId, AnyComponent)>) {
        let slots = ecs.get_components();
        let n = slots.len();
        let mut r: Vec<(EntityId, ComponentTypeId, AnyComponent)> = Vec::new();
        let mut k: usize = 0;
        while k < n
            invariant
                n == slots@.len(),
                k <= n,
                slots@ == ecs@.slots(),
                0 <= dt <= MAX_TICK_DT,
                r@ == physics_diffs_of(slots@.take(k as int), dt as int),
            decreases n - k,
        {
            let (eid, b) = slots[k];
            proof {
                assert(slots@.take(k + 1 as int).drop_last() =~= slots@.take(k as int));
                assert(slots@.take(k + 1 as int).last() == slots@[k as int]);
            }
            if b.y < FALL_LIMIT || b.z > 0 {
                let mut nb = b;
                if b.y < FALL_LIMIT {
                    nb.y = b.y + FALL_RATE * dt;
                }
                if b.z > 0 {
                    nb.z = b.z - DEPTH_DECAY_RATE * dt;
                }
                proof {
                    assert(nb == step_body(b, dt as int));
                }
                r.push((eid, BODY_CTID, AnyComponent::Body(nb)));
            }
            k = k + 1;
        }
        proof {
            assert(slots@.take(n as int) =~= slots@);
        }
        r
    }
}

} // verus!
