//! Raw user actions, before resolution into replication messages.

use vstd::prelude::*;

use crate::components::BodyComponent;

verus! {

/// A raw local input: the one defined action asks for an entity at the given
/// body (position and scale).
#[derive(Clone, Copy, Debug, PartialEq, Eq, Structural)]
pub enum Input {
    CreateEntity(BodyComponent),
}

} // verus!
