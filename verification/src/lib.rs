//! A minimal entity-component data model: a typed, queryable store that
//! associates value components with lightweight generational entity
//! identities, plus a deferred-mutation queue and a sequential scheduler
//! that drives host-supplied logic units against the store once per cycle.

pub mod allocator;
pub mod app;
pub mod commands;
pub mod component;
pub mod component_array;
pub mod entity_builder;
pub mod laws;
pub mod query;
pub mod scheduler;
pub mod system;
pub mod world;
