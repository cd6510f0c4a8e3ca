//! Numerical methods for advancing a plant in time.

pub mod rk4;
