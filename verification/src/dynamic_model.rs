//! The central interface of dynamic modelling.
//!
//! A component does not declare a state layout nor persist anything itself: it subscribes
//! to the simulation's `StateRegistry`, which hands back the `Proxy` handles it needs (its
//! own state, its derivatives, the values of other components). `evaluate` then reads and
//! writes through those handles. Having a dynamic to evaluate does not mean producing a
//! derivative: a pure aggregator is still affected by integration, since the values it
//! reads change on every round.

use vstd::prelude::*;

use crate::registry_model::RegistryModel;
use crate::state_registry::StateRegistry;

verus! {

/// A model whose dynamics can be evaluated against the registry's evaluation buffer.
pub trait DynamicModel<V> {
    /// A name for diagnostics.
    fn name(&self) -> (r: &'static str)
        default_ensures
            r@ == "unnamed"@,
    {
        "unnamed"
    }

    /// The effect of one evaluation of this model: `after` is a state of the registry
    /// that an evaluation can leave behind when it starts from `before`.
    ///
    /// A model that does not say more may leave any values behind.
    open spec fn evaluated(&self, before: RegistryModel<V>, after: RegistryModel<V>) -> bool {
        true
    }

    /// Evaluates the model once: it may write values through its handles, and must leave
    /// the layout of the registry (its slots, keys, needs and committed state) as it was.
    fn evaluate(&self, registry: &mut StateRegistry<V>)
        requires
            old(registry)@.wf(),
        ensures
            final(registry)@.wf(),
            final(registry)@.same_layout(old(registry)@),
            self.evaluated(old(registry)@, final(registry)@),
    ;
}

/// Composition: a composite model is a dynamic model (supertrait) made of children that
/// are evaluated in the order in which they were added. Leaf components do not implement
/// it, so composing them is a type error rather than a runtime one.
///
/// `add_dynamic` declares no slots: slots are declared by each child's own subscription to
/// the registry. It only orders: the child joins the end of the evaluation sequence.
/// `models`/`models_mut` are the only methods a concrete composite writes, plain accessors
/// to its own children; with them `evaluate_children` runs everybody in order.
pub trait CompositeDynamicModel<V>: DynamicModel<V> {
    /// The children, in evaluation order. A composite that does not say which they are
    /// has some children nobody knows of.
    closed spec fn children(&self) -> Seq<Box<dyn DynamicModel<V>>> {
        arbitrary()
    }

    /// The children, in evaluation order.
    fn models(&self) -> (r: &[Box<dyn DynamicModel<V>>])
        ensures
            r@ == self.children(),
    ;

    /// The children, for changing them.
    fn models_mut(&mut self) -> (r: &mut Vec<Box<dyn DynamicModel<V>>>)
        ensures
            r@ == old(self).children(),
            final(self).children() == final(r)@,
    ;

    /// Appends a child at the end of the evaluation sequence: the children before it stay,
    /// in the same order, and the new one is evaluated last.
    fn add_dynamic(&mut self, component: Box<dyn DynamicModel<V>>)
        ensures
            final(self).children() == old(self).children().push(component),
    {
        self.models_mut().push(component);
    }

    /// Evaluates every child once, in order: the registry goes through one state per
    /// child, each child's evaluation leading from its state to the next.
    fn evaluate_children(&self, registry: &mut StateRegistry<V>)
        requires
            old(registry)@.wf(),
        ensures
            final(registry)@.wf(),
            final(registry)@.same_layout(old(registry)@),
            evaluated_in_order(self.children(), old(registry)@, final(registry)@),
    {
        evaluate_in_order(self.models(), registry);
    }
}

/// Evaluates `models` once each, in order.
fn evaluate_in_order<V>(models: &[Box<dyn DynamicModel<V>>], registry: &mut StateRegistry<V>)
    requires
        old(registry)@.wf(),
    ensures
        final(registry)@.wf(),
        final(registry)@.same_layout(old(registry)@),
        evaluated_in_order(models@, old(registry)@, final(registry)@),
{
    let ghost start = registry@;
    let ghost mut states: Seq<RegistryModel<V>> = seq![registry@];
    let mut i: usize = 0;
    while i < models.len()
        invariant
            i <= models@.len(),
            registry@.wf(),
            registry@.same_layout(start),
            start == old(registry)@,
            states.len() == i + 1,
            states[0] == start,
            states[i as int] == registry@,
            forall|j: int|
                0 <= j < i ==> (#[trigger] models@[j]).evaluated(states[j], states[j + 1]),
        decreases models@.len() - i,
    {
        models[i].evaluate(registry);
        proof {
            states = states.push(registry@);
        }
        i = i + 1;
    }
    assert(chain_evaluates(models@, states));
}

/// A composite that owns its children, in evaluation order. Evaluating it evaluates its
/// children once each, in order.
#[verifier::reject_recursive_types(V)]
pub struct Composite<V> {
    children: Vec<Box<dyn DynamicModel<V>>>,
}

impl<V> Composite<V> {
    /// A composite without children.
    pub fn new() -> (r: Self)
        ensures
            r.children() == Seq::<Box<dyn DynamicModel<V>>>::empty(),
    {
        Composite { children: Vec::new() }
    }
}

impl<V> DynamicModel<V> for Composite<V> {
    closed spec fn evaluated(&self, before: RegistryModel<V>, after: RegistryModel<V>) -> bool {
        evaluated_in_order(self.children@, before, after)
    }

    fn evaluate(&self, registry: &mut StateRegistry<V>) {
        evaluate_in_order(self.children.as_slice(), registry);
    }
}

impl<V> CompositeDynamicModel<V> for Composite<V> {
    closed spec fn children(&self) -> Seq<Box<dyn DynamicModel<V>>> {
        self.children@
    }

    fn models(&self) -> (r: &[Box<dyn DynamicModel<V>>]) {
        let r = self.children.as_slice();
        assert(r@ == self.children@);
        r
    }

    fn models_mut(&mut self) -> (r: &mut Vec<Box<dyn DynamicModel<V>>>) {
        &mut self.children
    }
}

/// `states` is a run of `models`: one more state than models, and each model's
/// evaluation leads from its state to the next.
pub open spec fn chain_evaluates<V>(
    models: Seq<Box<dyn DynamicModel<V>>>,
    states: Seq<RegistryModel<V>>,
) -> bool {
    &&& states.len() == models.len() + 1
    &&& forall|j: int| 0 <= j < models.len() ==> (#[trigger] models[j]).evaluated(states[j], states[j + 1])
}

/// Evaluating `models` once each, in order, can lead from `before` to `after`.
pub open spec fn evaluated_in_order<V>(
    models: Seq<Box<dyn DynamicModel<V>>>,
    before: RegistryModel<V>,
    after: RegistryModel<V>,
) -> bool {
    exists|states: Seq<RegistryModel<V>>|
        #[trigger] chain_evaluates(models, states) && states[0] == before && states.last() == after
}

/// Evaluating no children leaves the registry exactly as it was.
pub proof fn law_no_children_change_nothing<V>(before: RegistryModel<V>, after: RegistryModel<V>)
    ensures
        evaluated_in_order(Seq::<Box<dyn DynamicModel<V>>>::empty(), before, after) <==> before
            == after,
{
    let none = Seq::<Box<dyn DynamicModel<V>>>::empty();
    if before == after {
        let states = seq![before];
        assert(chain_evaluates(none, states));
    }
}

/// Evaluating children in order is evaluating all of them but the last, in order, and then
/// the last one, from the state the others left: every child counts, however many there
/// are.
pub proof fn law_children_run_one_after_another<V>(
    models: Seq<Box<dyn DynamicModel<V>>>,
    before: RegistryModel<V>,
    after: RegistryModel<V>,
)
    requires
        models.len() > 0,
    ensures
        evaluated_in_order(models, before, after) <==> exists|mid: RegistryModel<V>|
            evaluated_in_order(models.take(models.len() - 1), before, mid) && (#[trigger] models[models.len()
                - 1].evaluated(mid, after)),
{
    let n = models.len() as int;
    let init = models.take(n - 1);
    if evaluated_in_order(models, before, after) {
        let states = choose|states: Seq<RegistryModel<V>>|
            #[trigger] chain_evaluates(models, states) && states[0] == before && states.last()
                == after;
        let mid = states[n - 1];
        let first = states.take(n);
        assert forall|j: int| 0 <= j < init.len() implies (#[trigger] init[j]).evaluated(
            first[j],
            first[j + 1],
        ) by {
            assert(init[j] == models[j]);
            assert(models[j].evaluated(states[j], states[j + 1]));
        }
        assert(chain_evaluates(init, first));
        assert(evaluated_in_order(init, before, mid));
        assert(models[n - 1].evaluated(mid, after));
    }
    if exists|mid: RegistryModel<V>|
        evaluated_in_order(init, before, mid) && (#[trigger] models[n - 1].evaluated(mid, after)) {
        let mid = choose|mid: RegistryModel<V>|
            evaluated_in_order(init, before, mid) && (#[trigger] models[n - 1].evaluated(mid, after));
        let first = choose|states: Seq<RegistryModel<V>>|
            #[trigger] chain_evaluates(init, states) && states[0] == before && states.last() == mid;
        let states = first.push(after);
        assert forall|j: int| 0 <= j < models.len() implies (#[trigger] models[j]).evaluated(
            states[j],
            states[j + 1],
        ) by {
            if j < n - 1 {
                assert(init[j] == models[j]);
                assert(init[j].evaluated(first[j], first[j + 1]));
            }
        }
        assert(chain_evaluates(models, states));
    }
}

/// Evaluating a `Composite` is evaluating every child it holds, once each, in the order in
/// which they were added.
pub proof fn law_composite_evaluates_every_child<V>(
    c: &Composite<V>,
    before: RegistryModel<V>,
    after: RegistryModel<V>,
)
    ensures
        c.evaluated(before, after) <==> evaluated_in_order(c.children(), before, after),
{
}

} // verus!
