//! The outward face of the framework: what a plant uses to run.
//!
//! A `Simulation` owns the whole life cycle: it creates its own registry, builds the model
//! with it (through the `build` function handed in by the caller) and resolves, all within
//! `new()`. The caller never sees the registry being wired: it only says how to build the
//! model and gets back a simulation ready to run.

use vstd::prelude::*;

use crate::dynamic_model::DynamicModel;
use crate::registry_model::{empty_registry, RegistryModel};
use crate::state_registry::StateRegistry;

verus! {

/// A model together with the registry it subscribed to. The simulation holds the model by
/// its own type, so that what the simulation evaluates is known to be the model that was
/// built.
pub struct Simulation<V, M> {
    model: M,
    registry: StateRegistry<V>,
}

impl<V, M> Simulation<V, M> {
    /// The registry's state.
    pub closed spec fn state(&self) -> RegistryModel<V> {
        self.registry@
    }

    /// The model the simulation evaluates.
    pub closed spec fn model(&self) -> M {
        self.model
    }

    /// The registry is well formed.
    pub open spec fn wf(&self) -> bool {
        self.state().wf()
    }
}

impl<V: Copy + Default, M: DynamicModel<V>> Simulation<V, M> {
    /// Creates the registry, builds the model with it and resolves every need. Fails,
    /// with the message of `StateRegistry::resolve`, when some need has no provider.
    pub fn new<F: FnOnce(&mut StateRegistry<V>) -> M>(
        build: F,
    ) -> (r: Result<Self, String>)
        requires
            // `build` is handed a fresh, empty registry whose slots start at the default
            // value, and must leave it well formed.
            forall|reg: &mut StateRegistry<V>|
                reg@ == empty_registry(reg@.blank) && call_ensures(V::default, (), reg@.blank)
                    ==> call_requires(build, (reg,)),
            forall|reg: &mut StateRegistry<V>, m: M|
                reg@ == empty_registry(reg@.blank) && call_ensures(V::default, (), reg@.blank)
                    && call_ensures(build, (reg,), m) ==> final(reg)@.wf(),
        ensures
            // `reg` is the registry `build` was handed (fresh and empty), `model` what it
            // built; the outcome is that of resolving what `build` left in the registry.
            exists|reg: &mut StateRegistry<V>, model: M|
                {
                    &&& reg@ == empty_registry(reg@.blank)
                    &&& call_ensures(V::default, (), reg@.blank)
                    &&& call_ensures(build, (reg,), model)
                    &&& match r {
                        Ok(sim) => {
                            &&& final(reg)@.resolve_outcome() is Ok
                            &&& sim.state() == final(reg)@.resolve()
                            &&& sim.model() == model
                        },
                        Err(msg) => final(reg)@.resolve_outcome() == Err::<(), Seq<char>>(msg@),
                    }
                },
            r matches Ok(sim) ==> sim.wf(),
    {
        let mut registry = StateRegistry::shared();
        let model = build(&mut registry);
        match registry.resolve() {
            Ok(()) => Ok(Simulation { model, registry }),
            Err(e) => Err(e),
        }
    }

    /// One round: evaluates the model, then commits the evaluation state.
    pub fn run(&mut self)
        requires
            old(self).wf(),
        ensures
            final(self).wf(),
            final(self).model() == old(self).model(),
            exists|evaluated: RegistryModel<V>|
                {
                    &&& old(self).model().evaluated(old(self).state(), evaluated)
                    &&& evaluated.wf()
                    &&& evaluated.same_layout(old(self).state())
                    &&& final(self).state() == evaluated.commit()
                },
    {
        self.model.evaluate(&mut self.registry);
        self.registry.commit();
    }

    /// The registry the model subscribed to.
    pub fn registry(&self) -> (r: &StateRegistry<V>)
        ensures
            r@ == self.state(),
    {
        &self.registry
    }
}

} // verus!
