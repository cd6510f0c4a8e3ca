//! Actuators: the parts of a plant that turn a command into a physical effect.

pub mod dynamic;
pub mod model;
