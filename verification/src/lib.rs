//! Entity/component store and role-based replication runtime.
//!
//! The library keeps mutable simulation state in a small entity/component
//! store, runs deterministic per-tick simulation systems over it, and decides,
//! for every inbound message or input, what changes locally and what is
//! re-emitted toward other tiers. Transports only carry the messages; they are
//! implemented outside this crate and exchange plain values with the runtime.

pub mod components;
pub mod ecs;
pub mod input;
pub mod runtime;
pub mod systems;
