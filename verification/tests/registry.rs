use lib::registry_model::ProxyKind;
use lib::state_registry::{Proxy, StateRegistry};

fn keys_of(registry: &StateRegistry<f64>) -> Vec<String> {
    registry.current_state.iter().map(|s| s.key.clone()).collect()
}

#[test]
fn fresh_registry_is_empty() {
    let mut registry: StateRegistry<f64> = StateRegistry::shared();
    assert!(registry.current_state.is_empty());
    registry.commit();
    assert!(registry.current_state.is_empty());
    assert_eq!(registry.resolve(), Ok(()));
}

#[test]
fn offered_slots_start_at_the_default_value_and_are_resolved_at_once() {
    let mut registry: StateRegistry<f64> = StateRegistry::shared();
    let (offered, needed) = registry.subscribe(&["a", "b"], &[]);
    assert_eq!(offered.len(), 2);
    assert!(needed.is_empty());
    assert_eq!(offered[0].get(&registry), 0.0);
    assert_eq!(offered[1].get(&registry), 0.0);
}

#[test]
fn read_after_write_and_other_slots_untouched() {
    let mut registry: StateRegistry<f64> = StateRegistry::shared();
    let (offered, _) = registry.subscribe(&["a", "b"], &[]);
    offered[0].set(&mut registry, 3.5);
    assert_eq!(offered[0].get(&registry), 3.5);
    assert_eq!(offered[1].get(&registry), 0.0);
    offered[1].set(&mut registry, -1.25);
    assert_eq!(offered[0].get(&registry), 3.5);
    assert_eq!(offered[1].get(&registry), -1.25);
}

#[test]
fn a_copied_proxy_addresses_the_same_slot() {
    let mut registry: StateRegistry<f64> = StateRegistry::shared();
    let (offered, _) = registry.subscribe(&["a"], &[]);
    let copy: Proxy = offered[0].clone();
    copy.set(&mut registry, 7.0);
    assert_eq!(offered[0].get(&registry), 7.0);
}

#[test]
fn need_resolves_to_its_provider_when_the_provider_comes_first() {
    let mut registry: StateRegistry<f64> = StateRegistry::shared();
    let (offered, _) = registry.subscribe(&["reactor.pressure"], &[]);
    let (_, needed) = registry.subscribe(&[], &["reactor.pressure"]);
    assert_eq!(registry.resolve(), Ok(()));
    offered[0].set(&mut registry, 2705.0);
    assert_eq!(needed[0].get(&registry), 2705.0);
}

#[test]
fn need_resolves_to_its_provider_when_the_reader_comes_first() {
    let mut registry: StateRegistry<f64> = StateRegistry::shared();
    let (_, needed) = registry.subscribe(&[], &["reactor.pressure"]);
    let (offered, _) = registry.subscribe(&["reactor.pressure"], &[]);
    assert_eq!(registry.resolve(), Ok(()));
    needed[0].set(&mut registry, 12.0);
    assert_eq!(offered[0].get(&registry), 12.0);
}

#[test]
fn resolve_reports_the_first_need_without_a_provider() {
    let mut registry: StateRegistry<f64> = StateRegistry::shared();
    let (offered, needed) = registry.subscribe(&["a"], &["a", "missing", "also_missing"]);
    let outcome = registry.resolve();
    assert_eq!(
        outcome,
        Err("input 'missing' declarado em subscribe() mas nenhum componente oferece esse slot".to_string())
    );
    // the need before the failing one was resolved
    offered[0].set(&mut registry, 4.0);
    assert_eq!(needed[0].get(&registry), 4.0);
}

#[test]
fn resolving_again_after_more_subscriptions_succeeds() {
    let mut registry: StateRegistry<f64> = StateRegistry::shared();
    let (offered, _) = registry.subscribe(&["x", "y"], &[]);
    assert_eq!(registry.resolve(), Ok(()));
    offered[1].set(&mut registry, 9.0);
    let (_, needed) = registry.subscribe(&[], &["y"]);
    assert_eq!(registry.resolve(), Ok(()));
    assert_eq!(registry.resolve(), Ok(()));
    assert_eq!(needed[0].get(&registry), 9.0);
}

#[test]
fn commit_copies_the_evaluation_buffer_with_keys() {
    let mut registry: StateRegistry<f64> = StateRegistry::shared();
    let (offered, _) = registry.subscribe(&["a", "b"], &[]);
    offered[0].set(&mut registry, 1.0);
    offered[1].set(&mut registry, 2.0);
    registry.commit();
    assert_eq!(keys_of(&registry), vec!["a".to_string(), "b".to_string()]);
    assert_eq!(registry.current_state[0].value, 1.0);
    assert_eq!(registry.current_state[1].value, 2.0);
    // the evaluation buffer is untouched by the commit
    assert_eq!(offered[0].get(&registry), 1.0);
    // a later write does not reach the committed state until the next commit
    offered[0].set(&mut registry, 5.0);
    assert_eq!(registry.current_state[0].value, 1.0);
    registry.commit();
    registry.commit();
    assert_eq!(registry.current_state[0].value, 5.0);
    assert_eq!(registry.current_state.len(), 2);
}

#[test]
fn a_key_offered_again_moves_to_the_new_slot() {
    let mut registry: StateRegistry<f64> = StateRegistry::shared();
    let (first, _) = registry.subscribe(&["k"], &[]);
    first[0].set(&mut registry, 1.0);
    let (second, needed) = registry.subscribe(&["k"], &["k"]);
    second[0].set(&mut registry, 2.0);
    assert_eq!(registry.resolve(), Ok(()));
    assert_eq!(needed[0].get(&registry), 2.0);
    // the older slot keeps its value
    assert_eq!(first[0].get(&registry), 1.0);
    registry.commit();
    assert_eq!(keys_of(&registry), vec![String::new(), "k".to_string()]);
    assert_eq!(registry.current_state[0].value, 0.0);
    assert_eq!(registry.current_state[1].value, 2.0);
}

#[test]
fn subscription_order_between_offers_and_needs_does_not_change_positions() {
    let mut one: StateRegistry<f64> = StateRegistry::shared();
    let (o1, _) = one.subscribe(&["p", "q"], &[]);
    let (_, n1) = one.subscribe(&[], &["q"]);
    let mut two: StateRegistry<f64> = StateRegistry::shared();
    let (_, n2) = two.subscribe(&[], &["q"]);
    let (o2, _) = two.subscribe(&["p", "q"], &[]);
    assert_eq!(one.resolve(), Ok(()));
    assert_eq!(two.resolve(), Ok(()));
    o1[1].set(&mut one, 6.5);
    o2[1].set(&mut two, 6.5);
    assert_eq!(n1[0].get(&one), n2[0].get(&two));
    one.commit();
    two.commit();
    assert_eq!(keys_of(&one), keys_of(&two));
}

#[test]
fn handles_point_at_consecutive_fresh_positions() {
    let mut registry: StateRegistry<f64> = StateRegistry::shared();
    let (a, _) = registry.subscribe(&["a"], &["z"]);
    let (b, c) = registry.subscribe(&["b", "c"], &["y"]);
    assert_eq!(a.len(), 1);
    assert_eq!(b.len(), 2);
    assert_eq!(c.len(), 1);
    b[1].set(&mut registry, 8.0);
    registry.commit();
    assert_eq!(keys_of(&registry), vec!["a".to_string(), "b".to_string(), "c".to_string()]);
    assert_eq!(registry.current_state[2].value, 8.0);
    let _ = ProxyKind::Offered(0);
}

#[test]
fn registry_works_with_integer_values_too() {
    let mut registry: StateRegistry<i64> = StateRegistry::shared();
    let (offered, needed) = registry.subscribe(&["n"], &["n"]);
    assert_eq!(registry.resolve(), Ok(()));
    assert_eq!(needed[0].get(&registry), 0);
    offered[0].set(&mut registry, 42);
    assert_eq!(needed[0].get(&registry), 42);
}

#[test]
fn a_resolved_need_keeps_its_slot_when_its_key_is_offered_again() {
    let mut registry: StateRegistry<f64> = StateRegistry::shared();
    let (first, needed) = registry.subscribe(&["k"], &["k"]);
    assert_eq!(registry.resolve(), Ok(()));
    first[0].set(&mut registry, 1.0);
    let (second, _) = registry.subscribe(&["k"], &[]);
    second[0].set(&mut registry, 2.0);
    assert_eq!(registry.resolve(), Ok(()));
    // resolved once, trusted for good: the need still reads the first slot
    assert_eq!(needed[0].get(&registry), 1.0);
    needed[0].set(&mut registry, 3.0);
    assert_eq!(first[0].get(&registry), 3.0);
    assert_eq!(second[0].get(&registry), 2.0);
}

#[test]
fn resolve_skips_needs_that_are_already_resolved() {
    let mut registry: StateRegistry<f64> = StateRegistry::shared();
    let (_, early) = registry.subscribe(&["a"], &["a"]);
    assert_eq!(registry.resolve(), Ok(()));
    // a later need without a provider fails, and names only that need
    let (_, late) = registry.subscribe(&[], &["b"]);
    assert_eq!(
        registry.resolve(),
        Err("input 'b' declarado em subscribe() mas nenhum componente oferece esse slot".to_string())
    );
    early[0].set(&mut registry, 5.0);
    assert_eq!(early[0].get(&registry), 5.0);
    let (offered, _) = registry.subscribe(&["b"], &[]);
    assert_eq!(registry.resolve(), Ok(()));
    offered[0].set(&mut registry, 6.0);
    assert_eq!(late[0].get(&registry), 6.0);
}

#[test]
fn a_need_is_resolved_only_after_resolve() {
    let mut registry: StateRegistry<f64> = StateRegistry::shared();
    let (offered, needed) = registry.subscribe(&["a"], &["a"]);
    assert!(offered[0].is_resolved_in(&registry));
    assert!(!needed[0].is_resolved_in(&registry));
    assert_eq!(registry.resolve(), Ok(()));
    assert!(needed[0].is_resolved_in(&registry));
    // a handle from another registry does not address a slot here
    let other: StateRegistry<f64> = StateRegistry::shared();
    assert!(!offered[0].is_resolved_in(&other));
    assert!(!needed[0].is_resolved_in(&other));
}

#[test]
fn current_state_accessor_shows_the_committed_copy() {
    let mut registry: StateRegistry<f64> = StateRegistry::shared();
    let (offered, _) = registry.subscribe(&["a"], &[]);
    assert!(registry.current_state().is_empty());
    offered[0].set(&mut registry, 2.5);
    registry.commit();
    assert_eq!(registry.current_state().len(), 1);
    assert_eq!(registry.current_state()[0].key, "a");
    assert_eq!(registry.current_state()[0].value, 2.5);
}
