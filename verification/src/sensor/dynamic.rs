//! Sensors with a response lag of their own: a thermocouple or a slow pressure
//! transmitter, whose reading follows the physical value with first-order dynamics, and a
//! sampler or analyzer, whose reading is held between samples.
//!
//! Each sensor keeps its reading as one state variable; `output` reads it from the state
//! vector.

use vstd::prelude::*;

verus! {

/// A sensor with first-order response lag: d(output)/dt = (input - output) / tau.
pub struct FirstOrderSensor<V> {
    pub tau: V,
    pub input: V,
}

impl<V: Copy + Default> FirstOrderSensor<V> {
    /// A sensor with time constant `tau`, whose input starts at the default value.
    pub fn new(tau: V) -> (r: Self)
        ensures
            r.tau == tau,
            call_ensures(V::default, (), r.input),
    {
        FirstOrderSensor { tau, input: V::default() }
    }

    /// The physical value the sensor is exposed to.
    pub fn set_input(&mut self, physical_value: V)
        ensures
            final(self).input == physical_value,
            final(self).tau == old(self).tau,
    {
        self.input = physical_value;
    }

    /// The reading: the sensor's one state variable.
    pub fn output(state: &[V]) -> (r: V)
        requires
            state@.len() > 0,
        ensures
            r == state@[0],
    {
        state[0]
    }
}

/// A sampler or analyzer with transport delay: it holds the last sampled value until the
/// next sample event (zero-order hold).
pub struct SampledSensor<V> {
    pub input: V,
    pub sample_pending: bool,
}

impl<V: Copy + Default> SampledSensor<V> {
    /// A sampler with no sample pending, whose input starts at the default value.
    pub fn new() -> (r: Self)
        ensures
            !r.sample_pending,
            call_ensures(V::default, (), r.input),
    {
        SampledSensor { input: V::default(), sample_pending: false }
    }

    /// A sample event: the sampler takes `physical_value` and has a sample pending.
    pub fn trigger(&mut self, physical_value: V)
        ensures
            final(self).input == physical_value,
            final(self).sample_pending,
    {
        self.input = physical_value;
        self.sample_pending = true;
    }

    /// The reading: the held value, the sampler's one state variable.
    pub fn output(state: &[V]) -> (r: V)
        requires
            state@.len() > 0,
        ensures
            r == state@[0],
    {
        state[0]
    }
}

} // verus!
