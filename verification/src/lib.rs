//! A verified core for simulating a plant as a set of dynamic models that share state
//! through a registry of named slots.

pub mod actuator;
pub mod dynamic_model;
pub mod method;
pub mod registry_model;
pub mod sensor;
pub mod simulation;
pub mod state_registry;
