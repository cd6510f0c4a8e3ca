//! The slots of the first-order actuators (valves and the agitator).
//!
//! A valve or the agitator has no need: its dynamics depend only on its own state
//! (position or speed) and on the command it receives. It offers two slots, its state and
//! its derivative, under keys derived from its name, so that the many valves of a plant do
//! not collide in the registry. The first-order law itself, `(command - state) / tau`, is
//! arithmetic on the plant's number type and is written by the plant.

use vstd::prelude::*;
use vstd::string::*;

use crate::registry_model::ProxyKind;
use crate::state_registry::{Proxy, StateRegistry};

verus! {

/// The key of the derivative of the slot offered under `key`.
pub fn derivative_key(key: &str) -> (r: String)
    ensures
        r@ == key@ + ".derivative"@,
{
    let mut r = key.to_owned();
    r.append(".derivative");
    r
}

/// The key of the position of the valve called `name`: `valve.{name}.position`.
pub fn valve_position_key(name: &str) -> (r: String)
    ensures
        r@ == "valve."@ + name@ + ".position"@,
{
    let mut r = "valve.".to_owned();
    r.append(name);
    r.append(".position");
    r
}

/// Offers the two slots of a first-order actuator whose state is offered under `key`:
/// the state itself and its derivative, in that order. Returns their handles.
fn offer_state_and_derivative<V: Copy>(registry: &mut StateRegistry<V>, key: &str) -> (r: (
    Proxy,
    Proxy,
))
    requires
        old(registry)@.wf(),
        old(registry)@.keys.len() + 2 <= usize::MAX,
    ensures
        final(registry)@ == old(registry)@.subscribe(
            seq![key@, key@ + ".derivative"@],
            Seq::empty(),
        ),
        final(registry)@.wf(),
        r.0@ == ProxyKind::Offered(old(registry)@.keys.len() as usize),
        r.1@ == ProxyKind::Offered((old(registry)@.keys.len() + 1) as usize),
{
    let derivative = derivative_key(key);
    let offers: [&str; 2] = [key, derivative.as_str()];
    let needs: [&str; 0] = [];
    let (offered, _) = registry.subscribe(&offers, &needs);
    proof {
        assert(offers@.map_values(|s: &str| s@) =~= seq![key@, key@ + ".derivative"@]);
        let handles = offered@.map_values(|p: Proxy| p@);
        assert(handles.len() == offered@.len());
        assert(handles[0] == offered@[0]@);
        assert(handles[1] == offered@[1]@);
    }
    (offered[0], offered[1])
}

/// Subscribes the valve called `name`: it offers `valve.{name}.position` and
/// `valve.{name}.position.derivative`, and needs nothing. Returns the handles of its
/// position and of its derivative.
pub fn valve_slots<V: Copy>(registry: &mut StateRegistry<V>, name: &str) -> (r: (Proxy, Proxy))
    requires
        old(registry)@.wf(),
        old(registry)@.keys.len() + 2 <= usize::MAX,
    ensures
        final(registry)@ == old(registry)@.subscribe(
            seq![
                "valve."@ + name@ + ".position"@,
                "valve."@ + name@ + ".position"@ + ".derivative"@,
            ],
            Seq::empty(),
        ),
        final(registry)@.wf(),
        r.0@ == ProxyKind::Offered(old(registry)@.keys.len() as usize),
        r.1@ == ProxyKind::Offered((old(registry)@.keys.len() + 1) as usize),
{
    let position_key = valve_position_key(name);
    offer_state_and_derivative(registry, position_key.as_str())
}

/// Subscribes the agitator: it offers `agitator.speed` and `agitator.speed.derivative`,
/// and needs nothing. Returns the handles of its speed and of its derivative.
pub fn agitator_slots<V: Copy>(registry: &mut StateRegistry<V>) -> (r: (Proxy, Proxy))
    requires
        old(registry)@.wf(),
        old(registry)@.keys.len() + 2 <= usize::MAX,
    ensures
        final(registry)@ == old(registry)@.subscribe(
            seq!["agitator.speed"@, "agitator.speed"@ + ".derivative"@],
            Seq::empty(),
        ),
        final(registry)@.wf(),
        r.0@ == ProxyKind::Offered(old(registry)@.keys.len() as usize),
        r.1@ == ProxyKind::Offered((old(registry)@.keys.len() + 1) as usize),
{
    offer_state_and_derivative(registry, "agitator.speed")
}

} // verus!
