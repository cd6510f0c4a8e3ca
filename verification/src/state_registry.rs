//! The state registry of a simulation.
//!
//! It keeps two worlds apart:
//! - the evaluation state, a working buffer that every `Proxy` reads and writes during a
//!   round of evaluation (it may hold hypothetical values, such as an intermediate guess of
//!   an iterative solver);
//! - the current state (`current_state`), the confirmed copy, rebuilt by `commit()`.
//!
//! `commit()` only copies; when to call it is decided by whoever drives the simulation.
//!
//! Components subscribe with the keys they offer (slots they provide, resolved at once)
//! and the keys they need (slots of other components, resolved by `resolve()` once every
//! component has subscribed). Slots are append-only: a position, once given out, keeps
//! its key and is never reused, and a need leaves the pending list once resolved, so a
//! handle resolved once keeps its position for good, even when its key is offered again.
//!
//! The registry is generic in the number type `V` of its values: the plant decides it.

use vstd::prelude::*;
use vstd::string::*;

use crate::registry_model::{
    can_resolve, empty_registry, first_missing, latest, lemma_first_missing_spec, lemma_first_missing_unique,
    lemma_latest_spec, lemma_latest_take_step, lemma_latest_unique, lemma_subscribe_wf,
    missing_provider_message,
    resolve_request, ProxyKind, RegistryModel, RequestModel, SlotModel,
};

verus! {

broadcast use vstd::seq_lib::group_seq_properties;

/// A named entry of the committed state: a semantic key and a value. The position of a
/// slot in the vector that holds it is its index; it is not repeated here.
pub struct StateSlot<V> {
    pub key: String,
    pub value: V,
}

impl<V> View for StateSlot<V> {
    type V = SlotModel<V>;

    open spec fn view(&self) -> SlotModel<V> {
        SlotModel { key: self.key@, value: self.value }
    }
}

/// A handle to one position of the evaluation buffer. A handle for an offered key knows
/// its position from the start; a handle for a needed key gets it from `resolve()`. The
/// handle is a plain value: every copy of it reads and writes the same slot.
#[derive(Clone, Copy)]
pub struct Proxy {
    kind: ProxyKind,
}

impl View for Proxy {
    type V = ProxyKind;

    closed spec fn view(&self) -> ProxyKind {
        self.kind
    }
}

/// A need declared in `subscribe`: its key and, once resolved, its position.
struct PendingRequest {
    key: String,
    position: Option<usize>,
}

impl PendingRequest {
    spec fn model(&self) -> RequestModel {
        RequestModel {
            key: self.key@,
            position: match self.position {
                Some(p) => Some(p as nat),
                None => None,
            },
        }
    }
}

/// The registry. Components subscribe to it, `resolve()` wires needs to offers, proxies
/// read and write its evaluation buffer, and `commit()` confirms the buffer.
pub struct StateRegistry<V> {
    /// The confirmed state: one entry per slot, rebuilt by `commit()`.
    pub current_state: Vec<StateSlot<V>>,
    /// The working buffer of a round of evaluation.
    evaluation_state: Vec<V>,
    /// The key under which each slot of `evaluation_state` was offered.
    slot_keys: Vec<String>,
    /// The needs declared in `subscribe()`, in order.
    pending_requests: Vec<PendingRequest>,
    /// The value every fresh slot starts with.
    blank: V,
}

impl<V> View for StateRegistry<V> {
    type V = RegistryModel<V>;

    closed spec fn view(&self) -> RegistryModel<V> {
        RegistryModel {
            keys: self.slot_keys@.map_values(|k: String| k@),
            values: self.evaluation_state@,
            requests: self.pending_requests@.map_values(|r: PendingRequest| r.model()),
            blank: self.blank,
            committed: self.current_state@.map_values(|s: StateSlot<V>| s@),
        }
    }
}

impl Proxy {
    /// A handle for the offered slot at `index`.
    fn resolved(index: usize) -> (p: Self)
        ensures
            p@ == ProxyKind::Offered(index),
    {
        Proxy { kind: ProxyKind::Offered(index) }
    }

    /// A handle for the need with number `request`, without a position yet.
    fn unresolved(request: usize) -> (p: Self)
        ensures
            p@ == ProxyKind::Requested(request),
    {
        Proxy { kind: ProxyKind::Requested(request) }
    }

    /// The position this handle addresses.
    fn index<V>(&self, registry: &StateRegistry<V>) -> (i: usize)
        requires
            registry@.wf(),
            registry@.is_resolved(self@),
        ensures
            registry@.position_of(self@) == Some(i as nat),
            i < registry@.values.len(),
    {
        match self.kind {
            ProxyKind::Offered(i) => i,
            ProxyKind::Requested(r) => {
                match registry.pending_requests[r].position {
                    Some(i) => i,
                    None => unreached(),
                }
            },
        }
    }

    /// Does this handle address a slot of `registry` yet? An offered handle does from the
    /// start; a needed one once `resolve()` has given it a position.
    pub fn is_resolved_in<V>(&self, registry: &StateRegistry<V>) -> (r: bool)
        requires
            registry@.wf(),
        ensures
            r == registry@.is_resolved(self@),
    {
        match self.kind {
            ProxyKind::Offered(i) => i < registry.evaluation_state.len(),
            ProxyKind::Requested(r) => {
                if r < registry.pending_requests.len() {
                    assert(registry@.requests[r as int] == registry.pending_requests@[r as int].model());
                    registry.pending_requests[r].position.is_some()
                } else {
                    false
                }
            },
        }
    }

    /// The value of the slot this handle addresses.
    pub fn get<V: Copy>(&self, registry: &StateRegistry<V>) -> (value: V)
        requires
            registry@.wf(),
            registry@.is_resolved(self@),
        ensures
            value == registry@.get(self@),
    {
        let i: usize = self.index(registry);
        registry.evaluation_state[i]
    }

    /// Writes `value` into the slot this handle addresses; no other slot changes.
    pub fn set<V: Copy>(&self, registry: &mut StateRegistry<V>, value: V)
        requires
            old(registry)@.wf(),
            old(registry)@.is_resolved(self@),
        ensures
            final(registry)@ == old(registry)@.set(self@, value),
            final(registry)@.wf(),
    {
        let i: usize = self.index(registry);
        registry.evaluation_state.set(i, value);
    }
}

impl<V: Copy + Default> StateRegistry<V> {
    /// An empty registry: no slots, no needs, nothing committed.
    fn new() -> (r: Self)
        ensures
            r@ == empty_registry(r@.blank),
            call_ensures(V::default, (), r@.blank),
            r@.wf(),
    {
        let r = StateRegistry {
            current_state: Vec::new(),
            evaluation_state: Vec::new(),
            slot_keys: Vec::new(),
            pending_requests: Vec::new(),
            blank: V::default(),
        };
        assert(r@.keys =~= Seq::<Seq<char>>::empty());
        assert(r@.requests =~= Seq::<RequestModel>::empty());
        assert(r@.committed =~= Seq::<SlotModel<V>>::empty());
        r
    }

    /// The only way to obtain a registry: one registry per simulation, which every
    /// component subscribes to. It starts empty; fresh slots hold the default value of
    /// the number type (0.0 for `f64`).
    pub fn shared() -> (r: Self)
        ensures
            r@ == empty_registry(r@.blank),
            call_ensures(V::default, (), r@.blank),
            r@.wf(),
    {
        Self::new()
    }
}

impl<V> StateRegistry<V> {
    /// The confirmed state, as the last `commit()` left it.
    pub fn current_state(&self) -> (r: &Vec<StateSlot<V>>)
        ensures
            r@.map_values(|s: StateSlot<V>| s@) == self@.committed,
    {
        &self.current_state
    }
}

impl<V: Copy> StateRegistry<V> {
    /// Position of the latest slot offered under `key`, if any.
    fn lookup(&self, key: &String) -> (r: Option<usize>)
        requires
            self@.wf(),
        ensures
            r matches Some(i) ==> latest(self@.keys, key@) == Some(i as nat),
            r is None ==> latest(self@.keys, key@) is None,
    {
        let ghost keys = self@.keys;
        let mut i: usize = self.slot_keys.len();
        while i > 0
            invariant
                keys == self@.keys,
                keys.len() == self.slot_keys@.len(),
                i <= keys.len(),
                latest(keys, key@) == latest(keys.take(i as int), key@),
            decreases i,
        {
            i = i - 1;
            proof {
                lemma_latest_take_step(keys, key@, i as int);
            }
            if self.slot_keys[i] == *key {
                return Some(i);
            }
        }
        None
    }

    /// A component subscribes: `offers` are the keys of the slots it provides (each gets
    /// a fresh slot at the end of the buffer, and a handle that is resolved at once);
    /// `needs` are the keys of slots of other components that it reads (each gets a
    /// handle that `resolve()` gives a position). The order in which providers and
    /// readers subscribe does not matter.
    pub fn subscribe(&mut self, offers: &[&str], needs: &[&str]) -> (r: (Vec<Proxy>, Vec<Proxy>))
        requires
            old(self)@.wf(),
            old(self)@.keys.len() + offers@.len() <= usize::MAX,
            old(self)@.requests.len() + needs@.len() <= usize::MAX,
        ensures
            final(self)@ == old(self)@.subscribe(
                offers@.map_values(|s: &str| s@),
                needs@.map_values(|s: &str| s@),
            ),
            final(self)@.wf(),
            r.0@.map_values(|p: Proxy| p@) == old(self)@.offered_handles(offers@.len()),
            r.1@.map_values(|p: Proxy| p@) == old(self)@.requested_handles(needs@.len()),
    {
        let ghost m = self@;
        let ghost offer_keys = offers@.map_values(|s: &str| s@);
        let ghost need_keys = needs@.map_values(|s: &str| s@);
        let mut offered: Vec<Proxy> = Vec::new();
        let mut k: usize = 0;
        while k < offers.len()
            invariant
                k <= offers@.len(),
                m.wf(),
                m.keys.len() + offers@.len() <= usize::MAX,
                offer_keys == offers@.map_values(|s: &str| s@),
                self@ == m.subscribe(offer_keys.take(k as int), Seq::empty()),
                offered@.map_values(|p: Proxy| p@) == m.offered_handles(k as nat),
            decreases offers@.len() - k,
        {
            let ghost before_keys = self.slot_keys@;
            let ghost before_offered = offered@;
            let idx: usize = self.evaluation_state.len();
            let key = offers[k].to_owned();
            self.evaluation_state.push(self.blank);
            self.slot_keys.push(key);
            offered.push(Proxy::resolved(idx));
            proof {
                let goal = m.subscribe(offer_keys.take(k + 1), Seq::empty());
                let prev = m.subscribe(offer_keys.take(k as int), Seq::empty());
                assert(self.slot_keys@.map_values(|k: String| k@) =~= before_keys.map_values(
                    |k: String| k@,
                ).push(key@));
                assert(self@.keys =~= goal.keys);
                assert(self@.values =~= goal.values);
                assert(offered@.map_values(|p: Proxy| p@) =~= before_offered.map_values(
                    |p: Proxy| p@,
                ).push(ProxyKind::Offered(idx)));
            }
            k = k + 1;
        }
        let ghost mid = self@;
        let mut requested: Vec<Proxy> = Vec::new();
        let mut k: usize = 0;
        while k < needs.len()
            invariant
                k <= needs@.len(),
                m.wf(),
                m.requests.len() + needs@.len() <= usize::MAX,
                need_keys == needs@.map_values(|s: &str| s@),
                mid == m.subscribe(offer_keys, Seq::empty()),
                self@ == m.subscribe(offer_keys, need_keys.take(k as int)),
                requested@.map_values(|p: Proxy| p@) == m.requested_handles(k as nat),
            decreases needs@.len() - k,
        {
            let ghost before_reqs = self.pending_requests@;
            let ghost before_requested = requested@;
            let r: usize = self.pending_requests.len();
            let key = needs[k].to_owned();
            let ghost key_view = key@;
            self.pending_requests.push(PendingRequest { key, position: None });
            requested.push(Proxy::unresolved(r));
            proof {
                let goal = m.subscribe(offer_keys, need_keys.take(k + 1));
                let new_req = RequestModel { key: key_view, position: None };
                assert(self.pending_requests@.map_values(|q: PendingRequest| q.model())
                    =~= before_reqs.map_values(|q: PendingRequest| q.model()).push(new_req));
                assert(self@.requests =~= goal.requests);
                assert(requested@.map_values(|p: Proxy| p@) =~= before_requested.map_values(
                    |p: Proxy| p@,
                ).push(ProxyKind::Requested(r)));
            }
            k = k + 1;
        }
        proof {
            lemma_subscribe_wf(m, offer_keys, need_keys);
        }
        (offered, requested)
    }

    /// Runs once every component has subscribed: each pending need, in subscription order,
    /// is pointed at the latest slot offered under its key, and leaves the pending list. A
    /// need resolved earlier keeps its position for good. A pending need without a provider
    /// is an error, reported by name; the needs before it are resolved, the others are left
    /// as they were. Resolving again later (after more subscriptions) is allowed.
    pub fn resolve(&mut self) -> (r: Result<(), String>)
        requires
            old(self)@.wf(),
        ensures
            final(self)@ == old(self)@.resolve(),
            final(self)@.wf(),
            match r {
                Ok(()) => old(self)@.resolve_outcome() == Ok::<(), Seq<char>>(()),
                Err(msg) => old(self)@.resolve_outcome() == Err::<(), Seq<char>>(msg@),
            },
    {
        let ghost m = self@;
        let n: usize = self.pending_requests.len();
        let mut i: usize = 0;
        while i < n
            invariant
                m == old(self)@,
                n == m.requests.len(),
                i <= n,
                self@.keys == m.keys,
                self@.values == m.values,
                self@.blank == m.blank,
                self@.committed == m.committed,
                self@.requests.len() == n,
                self@.wf(),
                first_missing(m.keys, m.requests.take(i as int)) is None,
                forall|j: int|
                    0 <= j < i ==> #[trigger] self@.requests[j] == resolve_request(
                        m.keys,
                        m.requests[j],
                    ),
                forall|j: int| i <= j < n ==> #[trigger] self@.requests[j] == m.requests[j],
            decreases n - i,
        {
            let ghost before = self@;
            assert(before.requests[i as int] == self.pending_requests@[i as int].model());
            proof {
                let t = m.requests.take(i + 1);
                assert(t.drop_last() =~= m.requests.take(i as int));
            }
            if self.pending_requests[i].position.is_none() {
                let found = self.lookup(&self.pending_requests[i].key);
                match found {
                    Some(idx) => {
                        self.pending_requests.set(
                            i,
                            PendingRequest {
                                key: self.pending_requests[i].key.clone(),
                                position: Some(idx),
                            },
                        );
                        proof {
                            let after = self@;
                            assert forall|j: int| 0 <= j < n implies #[trigger] after.requests[j]
                                == (if j == i {
                                resolve_request(m.keys, m.requests[j])
                            } else {
                                before.requests[j]
                            }) by {
                                assert(after.requests[j] == self.pending_requests@[j].model());
                            }
                            lemma_latest_spec(m.keys, m.requests[i as int].key);
                        }
                    },
                    None => {
                        let mut msg = "input '".to_owned();
                        msg.append(self.pending_requests[i].key.as_str());
                        msg.append(
                            "' declarado em subscribe() mas nenhum componente oferece esse slot",
                        );
                        proof {
                            let t = m.requests.take(i + 1);
                            lemma_first_missing_spec(m.keys, t);
                            assert forall|j: int| 0 <= j < i implies can_resolve(
                                m.keys,
                                #[trigger] m.requests[j],
                            ) by {
                                assert(t[j] == m.requests[j]);
                            }
                            lemma_first_missing_unique(m.keys, m.requests, Some(i as nat));
                            assert(self@.requests =~= m.resolved_requests());
                        }
                        return Err(msg);
                    },
                }
            }
            i = i + 1;
        }
        proof {
            assert(m.requests.take(n as int) =~= m.requests);
            assert(self@.requests =~= m.resolved_requests());
        }
        Ok(())
    }

    /// Is slot `i` the latest one offered under its key?
    fn is_latest(&self, i: usize) -> (r: bool)
        requires
            self@.wf(),
            i < self@.keys.len(),
        ensures
            r == (latest(self@.keys, self@.keys[i as int]) == Some(i as nat)),
    {
        let ghost keys = self@.keys;
        let key = &self.slot_keys[i];
        let mut j: usize = i + 1;
        while j < self.slot_keys.len()
            invariant
                keys == self@.keys,
                keys.len() == self.slot_keys@.len(),
                i < j <= keys.len(),
                key@ == keys[i as int],
                forall|l: int| i < l < j ==> keys[l] != keys[i as int],
            decreases keys.len() - j,
        {
            if self.slot_keys[j] == *key {
                proof {
                    lemma_latest_spec(keys, keys[i as int]);
                    if let Some(p) = latest(keys, keys[i as int]) {
                        if p == i {
                            assert(keys[j as int] == keys[i as int]);
                        }
                    }
                }
                return false;
            }
            j = j + 1;
        }
        proof {
            lemma_latest_unique(keys, keys[i as int], Some(i as nat));
        }
        true
    }

    /// Commit of the evaluation state into the current state: `current_state` is rebuilt
    /// from the buffer, one entry per slot, each with the key it answers to; a slot whose
    /// key was offered again later gets an empty key and the blank value. It decides
    /// nothing: it copies what is there when it is called.
    pub fn commit(&mut self)
        requires
            old(self)@.wf(),
        ensures
            final(self)@ == old(self)@.commit(),
            final(self)@.wf(),
    {
        let ghost m = self@;
        let n: usize = self.evaluation_state.len();
        let mut slots: Vec<StateSlot<V>> = Vec::new();
        let mut i: usize = 0;
        while i < n
            invariant
                self@ == m,
                m.wf(),
                n == m.values.len(),
                i <= n,
                slots@.len() == i,
                forall|j: int| 0 <= j < i ==> #[trigger] slots@[j]@ == m.committed_slot(j),
            decreases n - i,
        {
            if self.is_latest(i) {
                slots.push(StateSlot { key: self.slot_keys[i].clone(), value: self.evaluation_state[i] });
            } else {
                slots.push(StateSlot { key: String::new(), value: self.blank });
            }
            i = i + 1;
        }
        self.current_state = slots;
        proof {
            assert(self@.committed =~= m.commit().committed);
        }
    }
}

} // verus!
