//! The classical fourth-order Runge-Kutta method.

use vstd::prelude::*;

verus! {

/// Marker for the classical fourth-order Runge-Kutta integrator.
pub struct RK4;

} // verus!
