# Tennessee Eastman plant: a verified simulation core

The plant is simulated as a set of dynamic models that share their state through a
registry of named slots. This crate proves the core of that arrangement with Verus.

## src/ (verified)

- `state_registry` — the registry: components `subscribe` with the keys they offer and the
  keys they need, `resolve` wires every need to the latest slot offered under its key,
  `Proxy` handles read and write the evaluation buffer, and `commit` copies the buffer into
  the current state. The registry is generic in the number type of its values.
- `registry_model` — the mathematical model of a registry (sequences of keys, values and
  needs), the spec functions that say what each operation does, and the laws of the
  registry as proof functions (read after write, append-only slots, order-independent
  subscription, when resolution succeeds, idempotence of resolve and commit, ...).
- `dynamic_model` — the `DynamicModel` and `CompositeDynamicModel` traits, and `Composite`,
  a composite that owns its children; a composite evaluates its children once each, in
  order.
- `simulation` — `Simulation`, which builds a model against a fresh registry, resolves, and
  runs rounds of evaluation followed by a commit. It holds the model by its own type.
- `actuator`, `sensor`, `method` — the ideal actuator, the slots of first-order valves and of
  the agitator, first-order and sampled sensors, and the RK4 marker.

## app/ (not verified)

The plant itself: its units, actuators, controllers and diagnostics are floating-point
physics written on the `monjolo` framework, plus the first-order law of the framework's valve
and agitator. The plant is assembled by the framework's component discovery; there is no
hand-written assembly function (a `build_tep` that listed the components by hand referred to
modules that no longer exist, and is not kept).

## tests/

Tests of the library on concrete values, with `f64` (and `i64`) as the number type.
