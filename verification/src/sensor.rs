//! Sensors whose reading has a dynamics of its own.

pub mod dynamic;
