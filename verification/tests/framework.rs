use lib::actuator::dynamic::{agitator_slots, derivative_key, valve_position_key, valve_slots};
use lib::actuator::model::{Actuator, IdealActuator};
use lib::dynamic_model::{Composite, CompositeDynamicModel, DynamicModel};
use lib::method::rk4::RK4;
use lib::sensor::dynamic::{FirstOrderSensor, SampledSensor};
use lib::simulation::Simulation;
use lib::state_registry::{Proxy, StateRegistry};

/// A first-order valve written against the library's slots: d(position)/dt =
/// (command - position) / tau.
struct Valve {
    tau: f64,
    command: f64,
    position: Proxy,
    derivative: Proxy,
}

impl Valve {
    fn new(registry: &mut StateRegistry<f64>, name: &str, tau: f64) -> Self {
        let (position, derivative) = valve_slots(registry, name);
        Valve { tau, command: 0.0, position, derivative }
    }
}

impl DynamicModel<f64> for Valve {
    fn name(&self) -> &'static str {
        "Valve"
    }

    fn evaluate(&self, registry: &mut StateRegistry<f64>) {
        let position = self.position.get(registry);
        self.derivative.set(registry, (self.command - position) / self.tau);
    }
}

/// Writes a fixed value into one slot.
struct Writer {
    target: Proxy,
    value: f64,
}

impl DynamicModel<f64> for Writer {
    fn evaluate(&self, registry: &mut StateRegistry<f64>) {
        self.target.set(registry, self.value);
    }
}

/// Adds one to a slot: evaluating it twice shows twice.
struct Incrementer {
    target: Proxy,
}

impl DynamicModel<f64> for Incrementer {
    fn evaluate(&self, registry: &mut StateRegistry<f64>) {
        let v = self.target.get(registry);
        self.target.set(registry, v + 1.0);
    }
}

/// Copies one slot into another.
struct Copier {
    from: Proxy,
    to: Proxy,
}

impl DynamicModel<f64> for Copier {
    fn evaluate(&self, registry: &mut StateRegistry<f64>) {
        let v = self.from.get(registry);
        self.to.set(registry, v);
    }
}

struct Group {
    children: Vec<Box<dyn DynamicModel<f64>>>,
}

impl DynamicModel<f64> for Group {
    fn evaluate(&self, registry: &mut StateRegistry<f64>) {
        self.evaluate_children(registry);
    }
}

impl CompositeDynamicModel<f64> for Group {
    fn models(&self) -> &[Box<dyn DynamicModel<f64>>] {
        &self.children
    }

    fn models_mut(&mut self) -> &mut Vec<Box<dyn DynamicModel<f64>>> {
        &mut self.children
    }
}

#[test]
fn valve_derivative_is_real_not_a_stub() {
    let mut registry: StateRegistry<f64> = StateRegistry::shared();
    let mut valve = Valve::new(&mut registry, "feed_a", 2.0);
    registry.resolve().unwrap();

    valve.command = 50.0;
    // the position starts at 0.0 (the slot's default): expected derivative (50 - 0) / 2 = 25
    valve.evaluate(&mut registry);
    assert_eq!(valve.derivative.get(&registry), 25.0);
    assert_eq!(valve.name(), "Valve");
}

#[test]
fn valve_offers_its_position_and_derivative_keys() {
    let mut registry: StateRegistry<f64> = StateRegistry::shared();
    let (position, derivative) = valve_slots(&mut registry, "feed_d");
    position.set(&mut registry, 72.0);
    derivative.set(&mut registry, -3.0);
    let (_, needed) = registry.subscribe(&[], &["valve.feed_d.position", "valve.feed_d.position.derivative"]);
    assert_eq!(registry.resolve(), Ok(()));
    assert_eq!(needed[0].get(&registry), 72.0);
    assert_eq!(needed[1].get(&registry), -3.0);
    registry.commit();
    assert_eq!(registry.current_state[0].key, "valve.feed_d.position");
    assert_eq!(registry.current_state[1].key, "valve.feed_d.position.derivative");
}

#[test]
fn agitator_offers_its_speed_and_derivative_keys() {
    let mut registry: StateRegistry<f64> = StateRegistry::shared();
    let (speed, _) = agitator_slots(&mut registry);
    speed.set(&mut registry, 50.0);
    registry.commit();
    assert_eq!(registry.current_state.len(), 2);
    assert_eq!(registry.current_state[0].key, "agitator.speed");
    assert_eq!(registry.current_state[0].value, 50.0);
    assert_eq!(registry.current_state[1].key, "agitator.speed.derivative");
}

#[test]
fn key_names_follow_the_conventions() {
    assert_eq!(valve_position_key("purge"), "valve.purge.position");
    assert_eq!(derivative_key("reactor.state.enthalpy"), "reactor.state.enthalpy.derivative");
    assert_eq!(derivative_key(""), ".derivative");
}

#[test]
fn default_name_is_unnamed() {
    let mut registry: StateRegistry<f64> = StateRegistry::shared();
    let (offered, _) = registry.subscribe(&["x"], &[]);
    let writer = Writer { target: offered[0], value: 1.0 };
    assert_eq!(writer.name(), "unnamed");
}

#[test]
fn composite_evaluates_children_in_insertion_order() {
    let mut registry: StateRegistry<f64> = StateRegistry::shared();
    let (offered, _) = registry.subscribe(&["source", "sink"], &[]);
    let mut group = Group { children: Vec::new() };
    group.add_dynamic(Box::new(Writer { target: offered[0], value: 3.0 }));
    group.add_dynamic(Box::new(Copier { from: offered[0], to: offered[1] }));
    assert_eq!(group.models().len(), 2);
    group.evaluate(&mut registry);
    assert_eq!(offered[1].get(&registry), 3.0);

    // the other order copies before the write lands
    let mut registry: StateRegistry<f64> = StateRegistry::shared();
    let (offered, _) = registry.subscribe(&["source", "sink"], &[]);
    let mut group = Group { children: Vec::new() };
    group.add_dynamic(Box::new(Copier { from: offered[0], to: offered[1] }));
    group.add_dynamic(Box::new(Writer { target: offered[0], value: 3.0 }));
    group.evaluate(&mut registry);
    assert_eq!(offered[1].get(&registry), 0.0);
    assert_eq!(offered[0].get(&registry), 3.0);
}

#[test]
fn composite_evaluates_each_child_once() {
    let mut registry: StateRegistry<f64> = StateRegistry::shared();
    let (offered, _) = registry.subscribe(&["count"], &[]);
    let mut group = Group { children: Vec::new() };
    group.add_dynamic(Box::new(Incrementer { target: offered[0] }));
    group.add_dynamic(Box::new(Incrementer { target: offered[0] }));
    group.evaluate_children(&mut registry);
    assert_eq!(offered[0].get(&registry), 2.0);
}

#[test]
fn simulation_builds_resolves_and_runs() {
    let simulation = Simulation::new(|registry: &mut StateRegistry<f64>| {
        let (_, needed) = registry.subscribe(&[], &["valve.feed_a.position"]);
        let valve = Valve::new(registry, "feed_a", 2.0);
        let mut group = Group { children: Vec::new() };
        group.add_dynamic(Box::new(Writer { target: valve.position, value: 10.0 }));
        group.add_dynamic(Box::new(Valve { command: 50.0, ..valve }));
        group.add_dynamic(Box::new(Incrementer { target: needed[0] }));
        group
    });
    let mut simulation = match simulation {
        Ok(s) => s,
        Err(e) => panic!("every need should have a provider: {e}"),
    };
    assert!(simulation.registry().current_state.is_empty());
    simulation.run();
    let committed = &simulation.registry().current_state;
    assert_eq!(committed.len(), 2);
    assert_eq!(committed[0].key, "valve.feed_a.position");
    assert_eq!(committed[0].value, 11.0);
    assert_eq!(committed[1].key, "valve.feed_a.position.derivative");
    assert_eq!(committed[1].value, 20.0);
    simulation.run();
    assert_eq!(simulation.registry().current_state[0].value, 11.0);
}

#[test]
fn simulation_fails_when_a_need_has_no_provider() {
    let simulation = Simulation::new(|registry: &mut StateRegistry<f64>| {
        let (offered, _) = registry.subscribe(&["a"], &["b"]);
        Writer { target: offered[0], value: 1.0 }
    });
    match simulation {
        Ok(_) => panic!("the need for 'b' has no provider"),
        Err(e) => assert_eq!(e, "input 'b' declarado em subscribe() mas nenhum componente oferece esse slot"),
    }
}

#[test]
fn ideal_actuator_applies_the_signal_unchanged() {
    let mut actuator = IdealActuator;
    assert_eq!(actuator.apply(42.5, 0.1), 42.5);
    assert_eq!(Actuator::<f64>::apply(&mut actuator, -3.0, 1.0), -3.0);
}

#[test]
fn first_order_sensor_keeps_tau_and_input() {
    let mut sensor: FirstOrderSensor<f64> = FirstOrderSensor::new(0.5);
    assert_eq!(sensor.tau, 0.5);
    assert_eq!(sensor.input, 0.0);
    sensor.set_input(120.4);
    assert_eq!(sensor.input, 120.4);
    assert_eq!(sensor.tau, 0.5);
    assert_eq!(FirstOrderSensor::<f64>::output(&[7.0, 8.0]), 7.0);
}

#[test]
fn sampled_sensor_holds_a_sample_until_triggered() {
    let mut sensor: SampledSensor<f64> = SampledSensor::new();
    assert!(!sensor.sample_pending);
    assert_eq!(sensor.input, 0.0);
    sensor.trigger(3.25);
    assert!(sensor.sample_pending);
    assert_eq!(sensor.input, 3.25);
    assert_eq!(SampledSensor::<f64>::output(&[9.5]), 9.5);
}

#[test]
fn rk4_is_a_unit_marker() {
    let _integrator = RK4;
}

#[test]
fn library_composite_evaluates_children_in_order() {
    let mut registry: StateRegistry<f64> = StateRegistry::shared();
    let (offered, _) = registry.subscribe(&["source", "sink"], &[]);
    let mut composite: Composite<f64> = Composite::new();
    assert!(composite.models().is_empty());
    composite.add_dynamic(Box::new(Writer { target: offered[0], value: 4.0 }));
    composite.add_dynamic(Box::new(Copier { from: offered[0], to: offered[1] }));
    composite.add_dynamic(Box::new(Incrementer { target: offered[1] }));
    assert_eq!(composite.models().len(), 3);
    composite.evaluate(&mut registry);
    assert_eq!(offered[1].get(&registry), 5.0);
    composite.evaluate_children(&mut registry);
    assert_eq!(offered[1].get(&registry), 5.0);
    assert_eq!(composite.name(), "unnamed");
}

#[test]
fn simulation_holds_a_library_composite() {
    let simulation = Simulation::new(|registry: &mut StateRegistry<f64>| {
        let (offered, _) = registry.subscribe(&["count"], &[]);
        let mut composite: Composite<f64> = Composite::new();
        composite.add_dynamic(Box::new(Incrementer { target: offered[0] }));
        composite.add_dynamic(Box::new(Incrementer { target: offered[0] }));
        composite
    });
    let mut simulation = match simulation {
        Ok(s) => s,
        Err(e) => panic!("nothing is needed: {e}"),
    };
    simulation.run();
    simulation.run();
    assert_eq!(simulation.registry().current_state[0].key, "count");
    assert_eq!(simulation.registry().current_state[0].value, 4.0);
}
