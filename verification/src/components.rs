//! The closed set of component kinds and the type-erased envelope over them.
//!
//! Coordinates and scales are fixed-point integers counting thousandths of a
//! world unit, so that per-tick integration stays exact.

use vstd::prelude::*;

use crate::ecs::{Component, ComponentType, ComponentTypeId};

verus! {

/// Number of component kinds in the closed set.
pub const COMPONENT_COUNT: usize = 1;

/// Component-kind id of [`BodyComponent`]; kind ids start at 1.
pub const BODY_CTID: usize = 1;

/// Spatial state of one entity: position `(x, y, z)` and scale
/// `(sx, sy, sz)`, each in thousandths of a world unit.
#[derive(Clone, Copy, Debug, PartialEq, Eq, Structural)]
pub struct BodyComponent {
    pub x: i64,
    pub y: i64,
    pub z: i64,
    pub sx: i64,
    pub sy: i64,
    pub sz: i64,
}

/// Type-erased component envelope: a closed tagged union with one variant per
/// component kind. Components cross the store/transport boundary only in this
/// form.
#[derive(Clone, Copy, Debug, PartialEq, Eq, Structural)]
pub enum AnyComponent {
    Body(BodyComponent),
}

impl AnyComponent {
    /// The kind id carried by this envelope.
    pub open spec fn spec_ctid(self) -> ComponentTypeId {
        match self {
            AnyComponent::Body(_) => BODY_CTID,
        }
    }

    /// The body payload of this envelope.
    pub open spec fn spec_body(self) -> BodyComponent {
        match self {
            AnyComponent::Body(b) => b,
        }
    }

    /// The kind id carried by this envelope.
    pub fn ctid(&self) -> (r: ComponentTypeId)
        ensures
            r == self.spec_ctid(),
    {
        match self {
            AnyComponent::Body(_) => BODY_CTID,
        }
    }
}

impl Component for BodyComponent {
    open spec fn spec_any(self) -> AnyComponent {
        AnyComponent::Body(self)
    }

    fn ctid(&self) -> (r: ComponentTypeId) {
        BODY_CTID
    }

    fn into_any(self) -> (r: AnyComponent) {
        AnyComponent::Body(self)
    }

    fn as_any(&self) -> (r: AnyComponent) {
        AnyComponent::Body(*self)
    }
}

impl ComponentType for BodyComponent {
    open spec fn spec_member_ctid() -> ComponentTypeId {
        BODY_CTID
    }

    fn member_ctid() -> (r: ComponentTypeId) {
        BODY_CTID
    }
}

} // verus!
