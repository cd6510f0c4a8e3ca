//! The mathematical model of a `StateRegistry`: what a registry holds, and what each of
//! its operations does to it, written as spec functions over sequences.

use vstd::prelude::*;

verus! {

/// What a handle (`Proxy`) points at: a slot that was offered (its position is known
/// from the start), or a need that was requested (its position is known once resolved).
#[derive(Clone, Copy, PartialEq, Eq, Structural, Debug)]
pub enum ProxyKind {
    /// The slot at this position of the evaluation buffer.
    Offered(usize),
    /// The need with this number, in the order in which needs were subscribed.
    Requested(usize),
}

/// A need declared in `subscribe`: the key it reads, and the position that `resolve`
/// gave it (none until then).
pub struct RequestModel {
    pub key: Seq<char>,
    pub position: Option<nat>,
}

/// One entry of the committed state: the slot's key and its value.
pub struct SlotModel<V> {
    pub key: Seq<char>,
    pub value: V,
}

/// The abstract state of a registry.
///
/// - `keys[i]` is the key under which slot `i` of the evaluation buffer was offered;
///   slots are only ever appended, so a position, once given out, keeps its key for good.
/// - `values[i]` is the value of slot `i` in the evaluation buffer.
/// - `requests` are the needs, in the order in which they were subscribed.
/// - `blank` is the value that every fresh slot starts with.
/// - `committed` is the last committed copy of the evaluation buffer.
pub struct RegistryModel<V> {
    pub keys: Seq<Seq<char>>,
    pub values: Seq<V>,
    pub requests: Seq<RequestModel>,
    pub blank: V,
    pub committed: Seq<SlotModel<V>>,
}

/// The position of the most recent slot offered under `key`, if any: offering a key
/// again moves the key to the new slot, the older slot keeps its value but no longer
/// answers to that key.
pub open spec fn latest(keys: Seq<Seq<char>>, key: Seq<char>) -> Option<nat>
    decreases keys.len(),
{
    if keys.len() == 0 {
        None
    } else if keys.last() == key {
        Some((keys.len() - 1) as nat)
    } else {
        latest(keys.drop_last(), key)
    }
}

/// A need can be given its position: it already has one, or some slot answers to its key.
pub open spec fn can_resolve(keys: Seq<Seq<char>>, request: RequestModel) -> bool {
    request.position is Some || latest(keys, request.key) is Some
}

/// A need after `resolve` reaches it: a need that already has a position keeps it (the
/// pending list only holds needs not yet resolved); a pending need is pointed at the latest
/// slot offered under its key.
pub open spec fn resolve_request(keys: Seq<Seq<char>>, request: RequestModel) -> RequestModel {
    if request.position is Some {
        request
    } else {
        RequestModel { key: request.key, position: latest(keys, request.key) }
    }
}

/// The first pending need, in subscription order, whose key no slot was offered under.
pub open spec fn first_missing(keys: Seq<Seq<char>>, requests: Seq<RequestModel>) -> Option<nat>
    decreases requests.len(),
{
    if requests.len() == 0 {
        None
    } else {
        match first_missing(keys, requests.drop_last()) {
            Some(k) => Some(k),
            None => if !can_resolve(keys, requests.last()) {
                Some((requests.len() - 1) as nat)
            } else {
                None
            },
        }
    }
}

/// The message with which `resolve` reports a need that has no provider.
pub open spec fn missing_provider_message(key: Seq<char>) -> Seq<char> {
    "input '"@ + key + "' declarado em subscribe() mas nenhum componente oferece esse slot"@
}

impl<V> RegistryModel<V> {
    /// Every slot has a key, and every resolved need points at an existing slot.
    pub open spec fn wf(self) -> bool {
        &&& self.keys.len() == self.values.len()
        &&& self.keys.len() <= usize::MAX
        &&& self.requests.len() <= usize::MAX
        &&& forall|r: int|
            0 <= r < self.requests.len() ==> (#[trigger] self.requests[r].position matches Some(
                p,
            ) ==> p < self.keys.len())
    }

    /// The position of the slot that a handle reads and writes, once it has one.
    pub open spec fn position_of(self, p: ProxyKind) -> Option<nat> {
        match p {
            ProxyKind::Offered(i) => if i < self.keys.len() {
                Some(i as nat)
            } else {
                None
            },
            ProxyKind::Requested(r) => if r < self.requests.len() {
                self.requests[r as int].position
            } else {
                None
            },
        }
    }

    /// A handle can be read and written only once it points at a slot.
    pub open spec fn is_resolved(self, p: ProxyKind) -> bool {
        self.position_of(p) is Some
    }

    /// The value a resolved handle reads.
    pub open spec fn get(self, p: ProxyKind) -> V
        recommends
            self.is_resolved(p),
    {
        self.values[self.position_of(p).unwrap() as int]
    }

    /// Writing `value` through a resolved handle: only its own slot changes.
    pub open spec fn set(self, p: ProxyKind, value: V) -> Self
        recommends
            self.is_resolved(p),
    {
        RegistryModel {
            values: self.values.update(self.position_of(p).unwrap() as int, value),
            ..self
        }
    }

    /// The handles that `subscribe` hands back for the offered keys: the fresh slots,
    /// in the order of the offers.
    pub open spec fn offered_handles(self, count: nat) -> Seq<ProxyKind> {
        Seq::new(count, |i: int| ProxyKind::Offered((self.keys.len() + i) as usize))
    }

    /// The handles that `subscribe` hands back for the needed keys: fresh needs, in the
    /// order of the needs.
    pub open spec fn requested_handles(self, count: nat) -> Seq<ProxyKind> {
        Seq::new(count, |i: int| ProxyKind::Requested((self.requests.len() + i) as usize))
    }

    /// A component subscribes: every offered key gets a fresh slot at the end of the
    /// buffer (starting at `blank`), every needed key becomes an unresolved need.
    pub open spec fn subscribe(self, offers: Seq<Seq<char>>, needs: Seq<Seq<char>>) -> Self {
        RegistryModel {
            keys: self.keys + offers,
            values: self.values + Seq::new(offers.len(), |i: int| self.blank),
            requests: self.requests + needs.map(
                |i: int, k: Seq<char>| RequestModel { key: k, position: None },
            ),
            ..self
        }
    }

    /// Does some slot answer to `key`?
    pub open spec fn has_provider(self, key: Seq<char>) -> bool {
        latest(self.keys, key) is Some
    }

    /// The needs after `resolve`: every pending need before the first one without a
    /// provider is pointed at the latest slot offered under its key; needs resolved earlier
    /// keep their position; the needs from the failing one on are left as they were.
    pub open spec fn resolved_requests(self) -> Seq<RequestModel> {
        let stop = match first_missing(self.keys, self.requests) {
            Some(k) => k as int,
            None => self.requests.len() as int,
        };
        Seq::new(
            self.requests.len(),
            |r: int|
                if r < stop {
                    resolve_request(self.keys, self.requests[r])
                } else {
                    self.requests[r]
                },
        )
    }

    /// The registry after `resolve`.
    pub open spec fn resolve(self) -> Self {
        RegistryModel { requests: self.resolved_requests(), ..self }
    }

    /// What `resolve` answers: success, or the message that names the first pending need
    /// (in subscription order) that no slot was offered for.
    pub open spec fn resolve_outcome(self) -> Result<(), Seq<char>> {
        match first_missing(self.keys, self.requests) {
            None => Ok(()),
            Some(k) => Err(missing_provider_message(self.requests[k as int].key)),
        }
    }

    /// The committed copy of slot `i`: its key and value when it is the latest slot
    /// offered under its key, and an empty key with `blank` for a slot whose key was
    /// offered again later.
    pub open spec fn committed_slot(self, i: int) -> SlotModel<V> {
        if latest(self.keys, self.keys[i]) == Some(i as nat) {
            SlotModel { key: self.keys[i], value: self.values[i] }
        } else {
            SlotModel { key: Seq::empty(), value: self.blank }
        }
    }

    /// The registry after `commit`: the committed state is rebuilt from the evaluation
    /// buffer, one entry per slot; nothing else changes.
    pub open spec fn commit(self) -> Self {
        RegistryModel {
            committed: Seq::new(self.keys.len(), |i: int| self.committed_slot(i)),
            ..self
        }
    }

    /// Only values in the evaluation buffer differ: the same slots under the same keys,
    /// the same needs, the same committed state.
    pub open spec fn same_layout(self, other: Self) -> bool {
        &&& self.keys == other.keys
        &&& self.values.len() == other.values.len()
        &&& self.requests == other.requests
        &&& self.blank == other.blank
        &&& self.committed == other.committed
    }
}

/// An empty registry: no slots, no needs, nothing committed.
pub open spec fn empty_registry<V>(blank: V) -> RegistryModel<V> {
    RegistryModel {
        keys: Seq::empty(),
        values: Seq::empty(),
        requests: Seq::empty(),
        blank,
        committed: Seq::empty(),
    }
}

/// Subscribing keeps a registry well formed.
pub proof fn lemma_subscribe_wf<V>(m: RegistryModel<V>, offers: Seq<Seq<char>>, needs: Seq<Seq<char>>)
    requires
        m.wf(),
        m.keys.len() + offers.len() <= usize::MAX,
        m.requests.len() + needs.len() <= usize::MAX,
    ensures
        m.subscribe(offers, needs).wf(),
{
    let n = m.subscribe(offers, needs);
    assert forall|r: int| 0 <= r < n.requests.len() implies (#[trigger] n.requests[r].position matches Some(
        p,
    ) ==> p < n.keys.len()) by {}
}

// ---------------------------------------------------------------------------------------
// Facts about `latest` and `first_missing` that the implementation relies on.
// ---------------------------------------------------------------------------------------

/// `latest` finds a slot with the key, and no later slot has it.
pub proof fn lemma_latest_spec(keys: Seq<Seq<char>>, key: Seq<char>)
    ensures
        latest(keys, key) matches Some(p) ==> {
            &&& p < keys.len()
            &&& keys[p as int] == key
            &&& forall|j: int| p < j < keys.len() ==> keys[j] != key
        },
        latest(keys, key) is None ==> forall|j: int| 0 <= j < keys.len() ==> keys[j] != key,
    decreases keys.len(),
{
    if keys.len() > 0 {
        let init = keys.drop_last();
        lemma_latest_spec(init, key);
        assert forall|j: int| 0 <= j < init.len() implies keys[j] == #[trigger] init[j] by {}
        if keys.last() != key {
            match latest(init, key) {
                Some(p) => {
                    assert forall|j: int| p < j < keys.len() implies keys[j] != key by {
                        if j < init.len() {
                            assert(keys[j] == init[j]);
                        }
                    }
                },
                None => {
                    assert forall|j: int| 0 <= j < keys.len() implies keys[j] != key by {
                        if j < init.len() {
                            assert(keys[j] == init[j]);
                        }
                    }
                },
            }
        }
    }
}

/// `latest` is determined by the facts of `lemma_latest_spec`.
pub proof fn lemma_latest_unique(keys: Seq<Seq<char>>, key: Seq<char>, p: Option<nat>)
    requires
        p matches Some(q) ==> {
            &&& q < keys.len()
            &&& keys[q as int] == key
            &&& forall|j: int| q < j < keys.len() ==> keys[j] != key
        },
        p is None ==> forall|j: int| 0 <= j < keys.len() ==> keys[j] != key,
    ensures
        latest(keys, key) == p,
{
    lemma_latest_spec(keys, key);
}

/// Looking at one more slot: `latest` over `keys.take(i + 1)`.
pub proof fn lemma_latest_take_step(keys: Seq<Seq<char>>, key: Seq<char>, i: int)
    requires
        0 <= i < keys.len(),
    ensures
        latest(keys.take(i + 1), key) == if keys[i] == key {
            Some(i as nat)
        } else {
            latest(keys.take(i), key)
        },
{
    assert(keys.take(i + 1).drop_last() =~= keys.take(i));
}

/// `first_missing` names a pending need without a provider, and all needs before it can be
/// resolved.
pub proof fn lemma_first_missing_spec(keys: Seq<Seq<char>>, requests: Seq<RequestModel>)
    ensures
        first_missing(keys, requests) matches Some(k) ==> {
            &&& k < requests.len()
            &&& !can_resolve(keys, requests[k as int])
            &&& forall|j: int| 0 <= j < k ==> can_resolve(keys, #[trigger] requests[j])
        },
        first_missing(keys, requests) is None ==> forall|j: int|
            0 <= j < requests.len() ==> can_resolve(keys, #[trigger] requests[j]),
    decreases requests.len(),
{
    if requests.len() > 0 {
        let init = requests.drop_last();
        lemma_first_missing_spec(keys, init);
        assert forall|j: int| 0 <= j < init.len() implies requests[j] == #[trigger] init[j] by {}
        match first_missing(keys, init) {
            Some(k) => {
                assert forall|j: int| 0 <= j < k implies can_resolve(
                    keys,
                    #[trigger] requests[j],
                ) by {
                    assert(requests[j] == init[j]);
                }
            },
            None => {
                if can_resolve(keys, requests.last()) {
                    assert forall|j: int| 0 <= j < requests.len() implies can_resolve(
                        keys,
                        #[trigger] requests[j],
                    ) by {
                        if j < init.len() {
                            assert(requests[j] == init[j]);
                        }
                    }
                } else {
                    assert forall|j: int| 0 <= j < init.len() implies can_resolve(
                        keys,
                        #[trigger] requests[j],
                    ) by {
                        assert(requests[j] == init[j]);
                    }
                }
            },
        }
    }
}

/// `first_missing` is determined by the facts of `lemma_first_missing_spec`.
pub proof fn lemma_first_missing_unique(
    keys: Seq<Seq<char>>,
    requests: Seq<RequestModel>,
    m: Option<nat>,
)
    requires
        m matches Some(k) ==> {
            &&& k < requests.len()
            &&& !can_resolve(keys, requests[k as int])
            &&& forall|j: int| 0 <= j < k ==> can_resolve(keys, #[trigger] requests[j])
        },
        m is None ==> forall|j: int|
            0 <= j < requests.len() ==> can_resolve(keys, #[trigger] requests[j]),
    ensures
        first_missing(keys, requests) == m,
{
    lemma_first_missing_spec(keys, requests);
}

} // verus!

verus! {

// ---------------------------------------------------------------------------------------
// Laws of the registry.
// ---------------------------------------------------------------------------------------

/// Read after write: a value written through a resolved handle is what that handle reads
/// next; every slot at another position keeps its value; slots, keys and needs stay.
pub proof fn law_read_after_write<V>(m: RegistryModel<V>, p: ProxyKind, q: ProxyKind, value: V)
    requires
        m.wf(),
        m.is_resolved(p),
    ensures
        m.set(p, value).wf(),
        m.set(p, value).same_layout(m),
        m.set(p, value).get(p) == value,
        m.is_resolved(q) && m.position_of(q) != m.position_of(p) ==> m.set(p, value).get(q)
            == m.get(q),
{
}

/// Append-only: subscribing never moves or changes what is already there. Every handle
/// that was resolved still addresses the same position and reads the same value; the
/// new offered handles address fresh slots at the end, under the offered keys, holding
/// the blank value; the new needed handles wait for `resolve`.
pub proof fn law_subscribe_is_append_only<V>(
    m: RegistryModel<V>,
    offers: Seq<Seq<char>>,
    needs: Seq<Seq<char>>,
    p: ProxyKind,
)
    requires
        m.wf(),
        m.keys.len() + offers.len() <= usize::MAX,
        m.requests.len() + needs.len() <= usize::MAX,
    ensures
        m.subscribe(offers, needs).wf(),
        m.is_resolved(p) ==> m.subscribe(offers, needs).position_of(p) == m.position_of(p)
            && m.subscribe(offers, needs).get(p) == m.get(p),
        forall|i: int|
            0 <= i < offers.len() ==> {
                let n = m.subscribe(offers, needs);
                let h = #[trigger] m.offered_handles(offers.len())[i];
                &&& n.position_of(h) == Some((m.keys.len() + i) as nat)
                &&& n.keys[m.keys.len() + i] == offers[i]
                &&& n.get(h) == m.blank
            },
        forall|i: int|
            0 <= i < needs.len() ==> {
                let n = m.subscribe(offers, needs);
                let h = #[trigger] m.requested_handles(needs.len())[i];
                &&& !n.is_resolved(h)
                &&& n.requests[m.requests.len() + i].key == needs[i]
            },
{
    lemma_subscribe_wf(m, offers, needs);
}

/// The order of subscription does not matter: offering first and needing later gives
/// the same registry as needing first and offering later, and as doing both at once.
pub proof fn law_subscription_order_is_irrelevant<V>(
    m: RegistryModel<V>,
    offers: Seq<Seq<char>>,
    needs: Seq<Seq<char>>,
)
    ensures
        m.subscribe(offers, Seq::empty()).subscribe(Seq::empty(), needs) == m.subscribe(
            offers,
            needs,
        ),
        m.subscribe(Seq::empty(), needs).subscribe(offers, Seq::empty()) == m.subscribe(
            offers,
            needs,
        ),
{
}

/// `resolve` succeeds exactly when every pending need has a provider; otherwise it names
/// the first pending need, in subscription order, that has none.
pub proof fn law_resolve_succeeds_iff_every_need_is_offered<V>(m: RegistryModel<V>)
    ensures
        m.resolve_outcome() is Ok <==> forall|r: int|
            0 <= r < m.requests.len() ==> (m.requests[r].position is Some || m.has_provider(
                #[trigger] m.requests[r].key,
            )),
        m.resolve_outcome() is Err ==> exists|k: int|
            0 <= k < m.requests.len() && m.requests[k].position is None && !m.has_provider(
                #[trigger] m.requests[k].key,
            ) && (forall|j: int|
                0 <= j < k ==> (m.requests[j].position is Some || m.has_provider(
                    #[trigger] m.requests[j].key,
                ))) && m.resolve_outcome() == Err::<(), Seq<char>>(
                missing_provider_message(m.requests[k].key),
            ),
{
    lemma_first_missing_spec(m.keys, m.requests);
}

/// After a successful `resolve`, every need that was pending addresses the latest slot
/// offered under its key, and reads that slot's value.
pub proof fn law_resolved_need_reads_its_provider<V>(m: RegistryModel<V>, r: usize)
    requires
        m.wf(),
        m.resolve_outcome() is Ok,
        r < m.requests.len(),
        m.requests[r as int].position is None,
    ensures
        m.resolve().position_of(ProxyKind::Requested(r)) == latest(
            m.keys,
            m.requests[r as int].key,
        ),
        m.resolve().is_resolved(ProxyKind::Requested(r)),
        m.resolve().get(ProxyKind::Requested(r)) == m.values[latest(
            m.keys,
            m.requests[r as int].key,
        ).unwrap() as int],
{
    lemma_first_missing_spec(m.keys, m.requests);
}

/// `resolve` touches nothing but the needs, keeps the registry well formed, and doing
/// it twice is doing it once.
pub proof fn law_resolve_is_idempotent<V>(m: RegistryModel<V>)
    requires
        m.wf(),
    ensures
        m.resolve().wf(),
        m.resolve().keys == m.keys,
        m.resolve().values == m.values,
        m.resolve().committed == m.committed,
        m.resolve().resolve() == m.resolve(),
        m.resolve().resolve_outcome() == m.resolve_outcome(),
{
    let n = m.resolve();
    lemma_first_missing_spec(m.keys, m.requests);
    assert forall|r: int| 0 <= r < n.requests.len() implies (#[trigger] n.requests[r].position matches Some(
        p,
    ) ==> p < n.keys.len()) by {
        lemma_latest_spec(m.keys, m.requests[r].key);
    }
    assert forall|j: int| 0 <= j < n.requests.len() implies #[trigger] n.requests[j].key
        == m.requests[j].key by {}
    lemma_first_missing_spec(n.keys, n.requests);
    lemma_first_missing_unique(n.keys, n.requests, first_missing(m.keys, m.requests));
    assert(n.resolve().requests =~= n.requests);
}

/// `commit` only copies: the evaluation buffer, the slots and the needs are untouched, and
/// so is what every handle reads; the committed state has one entry per slot. A slot that
/// answers to its key is committed with that key and its current value; a slot whose key
/// was offered again later is committed with an empty key and the blank value (the number
/// type's default, by `StateRegistry::shared`). Committing twice is committing once.
pub proof fn law_commit_copies_the_buffer<V>(m: RegistryModel<V>, i: int, p: ProxyKind)
    requires
        m.wf(),
        0 <= i < m.keys.len(),
    ensures
        m.commit().wf(),
        m.commit().keys == m.keys,
        m.commit().values == m.values,
        m.commit().requests == m.requests,
        m.commit().committed.len() == m.values.len(),
        latest(m.keys, m.keys[i]) == Some(i as nat) ==> m.commit().committed[i] == (SlotModel {
            key: m.keys[i],
            value: m.values[i],
        }),
        latest(m.keys, m.keys[i]) != Some(i as nat) ==> m.commit().committed[i] == (SlotModel {
            key: Seq::empty(),
            value: m.blank,
        }),
        m.is_resolved(p) ==> m.commit().is_resolved(p) && m.commit().get(p) == m.get(p),
        m.commit().commit() == m.commit(),
{
    assert(m.commit().commit().committed =~= m.commit().committed);
}

/// Resolve once, trust forever: a handle, once resolved, keeps its position. Subscribing
/// (even offering its key again), resolving again, committing and writing never move it,
/// and committing does not change what it reads.
pub proof fn law_resolved_handles_stay_resolved<V>(
    m: RegistryModel<V>,
    p: ProxyKind,
    offers: Seq<Seq<char>>,
    needs: Seq<Seq<char>>,
    q: ProxyKind,
    value: V,
)
    requires
        m.wf(),
        m.is_resolved(p),
    ensures
        m.subscribe(offers, needs).position_of(p) == m.position_of(p),
        m.resolve().position_of(p) == m.position_of(p),
        m.commit().position_of(p) == m.position_of(p),
        m.commit().get(p) == m.get(p),
        m.is_resolved(q) ==> m.set(q, value).position_of(p) == m.position_of(p),
{
    lemma_first_missing_spec(m.keys, m.requests);
}

/// A key offered again moves to the new slot: the latest slot under the key, the one
/// that needs resolved afterwards read, is the newer one.
pub proof fn law_reoffered_key_moves_to_the_new_slot(keys: Seq<Seq<char>>, key: Seq<char>)
    ensures
        latest(keys.push(key), key) == Some(keys.len()),
{
}

/// What `resolve` does, whole: it succeeds exactly when every pending need has a provider.
/// On success every pending need addresses the latest slot offered under its key (so a value
/// written through the need is read through the offering handle) and every need resolved
/// earlier keeps its position. On failure it names the first pending need without a
/// provider, in subscription order; the needs before it are resolved as on success, and
/// the needs from it on are left as they were.
pub proof fn law_resolve_fails_partially<V>(m: RegistryModel<V>, value: V)
    requires
        m.wf(),
    ensures
        m.resolve_outcome() is Ok <==> forall|r: int|
            0 <= r < m.requests.len() ==> can_resolve(m.keys, #[trigger] m.requests[r]),
        m.resolve_outcome() is Ok ==> forall|r: int|
            0 <= r < m.requests.len() ==> {
                &&& #[trigger] m.resolve().requests[r] == resolve_request(m.keys, m.requests[r])
                &&& m.resolve().is_resolved(ProxyKind::Requested(r as usize))
            },
        m.resolve_outcome() is Ok ==> forall|r: int|
            0 <= r < m.requests.len() && #[trigger] m.requests[r].position is None ==> m.resolve().set(
                ProxyKind::Requested(r as usize),
                value,
            ).get(ProxyKind::Offered(latest(m.keys, m.requests[r].key).unwrap() as usize))
                == value,
        m.resolve_outcome() is Err ==> exists|k: int|
            {
                &&& 0 <= k < m.requests.len()
                &&& m.requests[k].position is None
                &&& !m.has_provider(#[trigger] m.requests[k].key)
                &&& m.resolve_outcome() == Err::<(), Seq<char>>(
                    missing_provider_message(m.requests[k].key),
                )
                &&& forall|j: int|
                    0 <= j < k ==> #[trigger] m.resolve().requests[j] == resolve_request(
                        m.keys,
                        m.requests[j],
                    )
                &&& forall|j: int|
                    k <= j < m.requests.len() ==> #[trigger] m.resolve().requests[j]
                        == m.requests[j]
            },
{
    lemma_first_missing_spec(m.keys, m.requests);
    assert forall|r: int| 0 <= r < m.requests.len() implies #[trigger] m.requests[r].position
        matches Some(q) ==> q < m.keys.len() by {}
    assert forall|r: int| 0 <= r < m.requests.len() implies (latest(m.keys, #[trigger] m.requests[r].key)
        matches Some(q) ==> q < m.keys.len()) by {
        lemma_latest_spec(m.keys, m.requests[r].key);
    }
}

/// Resolving after a successful resolve and further subscriptions: the second `resolve`
/// succeeds exactly when every new need has a provider, whether its provider subscribed
/// before or after it, and every need resolved the first time keeps its position.
pub proof fn law_resolve_again_after_more_subscriptions<V>(
    m: RegistryModel<V>,
    offers: Seq<Seq<char>>,
    needs: Seq<Seq<char>>,
    r: int,
)
    requires
        m.wf(),
        m.resolve_outcome() is Ok,
        m.keys.len() + offers.len() <= usize::MAX,
        m.requests.len() + needs.len() <= usize::MAX,
        0 <= r < m.requests.len(),
    ensures
        m.resolve().subscribe(offers, needs).resolve_outcome() is Ok <==> forall|i: int|
            0 <= i < needs.len() ==> latest(m.keys + offers, #[trigger] needs[i]) is Some,
        m.resolve().subscribe(offers, needs).resolve().position_of(ProxyKind::Requested(r as usize))
            == m.resolve().position_of(ProxyKind::Requested(r as usize)),
        m.resolve().is_resolved(ProxyKind::Requested(r as usize)),
{
    let once = m.resolve();
    law_resolve_fails_partially(m, m.blank);
    law_resolve_is_idempotent(m);
    let n = once.subscribe(offers, needs);
    lemma_subscribe_wf(once, offers, needs);
    lemma_first_missing_spec(n.keys, n.requests);
    assert forall|j: int| 0 <= j < m.requests.len() implies can_resolve(
        n.keys,
        #[trigger] n.requests[j],
    ) by {}
    assert forall|i: int| 0 <= i < needs.len() implies #[trigger] n.requests[m.requests.len()
        + i] == (RequestModel { key: needs[i], position: None }) by {}
    if forall|i: int| 0 <= i < needs.len() ==> latest(m.keys + offers, #[trigger] needs[i]) is Some {
        assert forall|j: int| 0 <= j < n.requests.len() implies can_resolve(
            n.keys,
            #[trigger] n.requests[j],
        ) by {
        }
    } else {
        let i = choose|i: int| 0 <= i < needs.len() && !(latest(m.keys + offers, #[trigger] needs[i]) is Some);
        assert(!can_resolve(n.keys, n.requests[m.requests.len() + i]));
    }
    let need = ProxyKind::Requested(r as usize);
    law_resolved_handles_stay_resolved(once, need, offers, needs, need, m.blank);
    law_resolved_handles_stay_resolved(n, need, Seq::empty(), Seq::empty(), need, m.blank);
}

/// The handles `subscribe` hands back for the needed keys come in the order of the keys:
/// the i-th one is the need subscribed with `needs[i]` (the need numbered after every need
/// subscribed before), it is pending until `resolve`, and once `resolve` succeeds it
/// addresses the latest slot offered under `needs[i]`, whose value it reads. Likewise the
/// i-th offered handle addresses the fresh slot offered under `offers[i]`.
pub proof fn law_subscribe_hands_back_handles_in_key_order<V>(
    m: RegistryModel<V>,
    offers: Seq<Seq<char>>,
    needs: Seq<Seq<char>>,
    i: int,
)
    requires
        m.wf(),
        m.keys.len() + offers.len() <= usize::MAX,
        m.requests.len() + needs.len() <= usize::MAX,
    ensures
        0 <= i < needs.len() ==> {
            let n = m.subscribe(offers, needs);
            let h = m.requested_handles(needs.len())[i];
            &&& h == ProxyKind::Requested((m.requests.len() + i) as usize)
            &&& n.requests[m.requests.len() + i] == (RequestModel { key: needs[i], position: None })
            &&& !n.is_resolved(h)
            &&& n.resolve_outcome() is Ok ==> {
                &&& n.resolve().position_of(h) == latest(m.keys + offers, needs[i])
                &&& n.resolve().is_resolved(h)
                &&& n.resolve().get(h) == n.values[latest(m.keys + offers, needs[i]).unwrap() as int]
            }
        },
        0 <= i < offers.len() ==> {
            let n = m.subscribe(offers, needs);
            let h = m.offered_handles(offers.len())[i];
            &&& h == ProxyKind::Offered((m.keys.len() + i) as usize)
            &&& n.position_of(h) == Some((m.keys.len() + i) as nat)
            &&& n.keys[m.keys.len() + i] == offers[i]
            &&& n.resolve().position_of(h) == Some((m.keys.len() + i) as nat)
        },
{
    lemma_subscribe_wf(m, offers, needs);
    let n = m.subscribe(offers, needs);
    if 0 <= i < needs.len() {
        let r = m.requests.len() + i;
        assert(n.requests[r] == RequestModel { key: needs[i], position: None });
        if n.resolve_outcome() is Ok {
            law_resolve_fails_partially(n, n.blank);
            assert(n.resolve().requests[r] == resolve_request(n.keys, n.requests[r]));
            lemma_latest_spec(n.keys, needs[i]);
        }
    }
}

} // verus!
