//! The actuator interface, and the ideal actuator.

use vstd::prelude::*;

verus! {

/// Something that turns a control signal into what is actually applied, over a time
/// step `dt`.
pub trait Actuator<V> {
    fn apply(&mut self, control_signal: V, dt: V) -> V;
}

/// An actuator without dynamics: it applies exactly the signal it is given.
pub struct IdealActuator;

impl<V> Actuator<V> for IdealActuator {
    fn apply(&mut self, control_signal: V, _dt: V) -> (applied: V)
        ensures
            applied == control_signal,
    {
        control_signal
    }
}

} // verus!
