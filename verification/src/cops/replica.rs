//! The replica: holds the values, has each write versioned, and applies the
//! writes of the other replicas once what they depend on is here.
use crate::cops::{
    dep_at_least, dominates, duplicate_values, from_ycsb, key_id, values_in_order, DepOrd, Error,
    Get, GetOk, GetOkView, KeyId, Put, PutOk, PutView, SyncKey, SyncKeyView, Update, UpdateOk,
    UpdateView, Version,
};
use crate::ycsb::Op;
use std::cmp::Ordering;
use std::collections::{BTreeMap, HashMap, VecDeque};
use vstd::prelude::*;
use vstd::std_specs::iter::IteratorSpec;

verus! {

/// What a replica wants done after it has handled an event.
#[derive(Debug, PartialEq, Eq)]
pub enum ReplicaAction<V, A> {
    /// Send the answer to the client at this address.
    SendGetOk(A, GetOk<V>),
    /// Send the answer to the client at this address.
    SendPutOk(A, PutOk<V>),
    /// Send the notice to every other replica.
    BroadcastSyncKey(SyncKey<V>),
    /// Ask the version service.
    Update(Update<V>),
}

/// A replica's action as a plain value.
pub ghost enum ReplicaActionView<VV, A> {
    SendGetOk(A, GetOkView<VV>),
    SendPutOk(A, VV),
    BroadcastSyncKey(SyncKeyView<VV>),
    Update(UpdateView<VV>),
}

impl<V: View, A> View for ReplicaAction<V, A> {
    type V = ReplicaActionView<V::V, A>;

    open spec fn view(&self) -> ReplicaActionView<V::V, A> {
        match *self {
            ReplicaAction::SendGetOk(addr, get_ok) => ReplicaActionView::SendGetOk(addr, get_ok@),
            ReplicaAction::SendPutOk(addr, put_ok) => ReplicaActionView::SendPutOk(addr, put_ok@),
            ReplicaAction::BroadcastSyncKey(sync_key) => ReplicaActionView::BroadcastSyncKey(
                sync_key@,
            ),
            ReplicaAction::Update(update) => ReplicaActionView::Update(update@),
        }
    }
}

/// The views of a sequence of actions.
pub open spec fn action_views<V: View, A>(actions: Seq<ReplicaAction<V, A>>) -> Seq<
    ReplicaActionView<V::V, A>,
> {
    actions.map_values(|a: ReplicaAction<V, A>| a@)
}

/// What a replica holds for a key.
pub struct KeyState<V, A> {
    value: String,
    version_deps: V,
    pending_puts: VecDeque<Put<V, A>>,
}

/// What a replica holds for a key, as a plain value: the value, its version,
/// and the writes that wait for a version, the first of which the version
/// service has been asked about.
pub ghost struct KeyStateView<VV, A> {
    pub value: Seq<char>,
    pub version_deps: VV,
    pub pending_puts: Seq<PutView<VV, A>>,
}

impl<V: View, A> View for KeyState<V, A> {
    type V = KeyStateView<V::V, A>;

    closed spec fn view(&self) -> KeyStateView<V::V, A> {
        KeyStateView {
            value: self.value@,
            version_deps: self.version_deps@,
            pending_puts: self.pending_puts@.map_values(|put: Put<V, A>| put@),
        }
    }
}

/// The state of a replica as a plain value.
pub ghost struct ReplicaState<VV, A> {
    pub store: Map<KeyId, KeyStateView<VV, A>>,
    pub version_zero: VV,
    pub pending_sync_keys: Seq<SyncKeyView<VV>>,
}

/// What handling one event comes to: the state afterwards and the actions to
/// take, or the error that ends the session.
pub type Step<VV, A> = Result<(ReplicaState<VV, A>, Seq<ReplicaActionView<VV, A>>), Error>;

impl<VV, A> ReplicaState<VV, A> {
    /// The version of the value under `id`; the version that everything
    /// starts from where there is none.
    pub open spec fn version_of(self, id: KeyId) -> VV {
        if self.store.contains_key(id) {
            self.store[id].version_deps
        } else {
            self.version_zero
        }
    }

    /// What the replica holds for `key`; an empty value at the version that
    /// everything starts from where it holds nothing.
    pub open spec fn state_of(self, key: KeyId) -> KeyStateView<VV, A> {
        if self.store.contains_key(key) {
            self.store[key]
        } else {
            KeyStateView {
                value: Seq::empty(),
                version_deps: self.version_zero,
                pending_puts: Seq::empty(),
            }
        }
    }

    /// Whether the replica holds, for every key of `deps`, a version that is
    /// at or after the dependency on that key.
    pub open spec fn satisfies<V: Version + View<V = VV>>(self, deps: Map<KeyId, VV>) -> bool {
        forall|id: KeyId| #[trigger]
            deps.contains_key(id) ==> dep_at_least::<V>(self.version_of(id), deps[id], id)
    }

    /// What a record inserted at startup comes to.
    pub open spec fn startup_insert(self, op: Op) -> Result<Self, Error> {
        match op {
            Op::Insert(key, fields) => match key_id(key@) {
                Err(error) => Err(error),
                Ok(id) => if fields@.len() != 1 {
                    Err(Error::Unimplemented)
                } else if self.store.contains_key(id) {
                    Err(Error::DuplicatedStartupInsertion)
                } else {
                    Ok(
                        ReplicaState {
                            store: self.store.insert(
                                id,
                                KeyStateView {
                                    value: fields@[0]@,
                                    version_deps: self.version_zero,
                                    pending_puts: Seq::empty(),
                                },
                            ),
                            ..self
                        },
                    )
                },
            },
            _ => Err(Error::Unimplemented),
        }
    }

    /// What a read comes to.
    pub open spec fn on_get(self, get: Get<A>) -> Result<Seq<ReplicaActionView<VV, A>>, Error> {
        if self.store.contains_key(get.key) {
            Ok(
                seq![
                    ReplicaActionView::SendGetOk(
                        get.client_addr,
                        GetOkView {
                            value: self.store[get.key].value,
                            version_deps: self.store[get.key].version_deps,
                        },
                    ),
                ],
            )
        } else {
            Err(Error::MissingState)
        }
    }

    /// What a write comes to: it is dropped where the replica does not hold
    /// what it depends on, and waits for its version otherwise. The version
    /// service is asked at once where no other write to the key waits.
    pub open spec fn on_put<V: Version + View<V = VV>>(self, put: PutView<VV, A>) -> (
        Self,
        Seq<ReplicaActionView<VV, A>>,
    ) {
        if !self.satisfies::<V>(put.deps) {
            (self, Seq::empty())
        } else {
            let state = self.state_of(put.key);
            (
                ReplicaState {
                    store: self.store.insert(
                        put.key,
                        KeyStateView { pending_puts: state.pending_puts.push(put), ..state },
                    ),
                    ..self
                },
                if state.pending_puts.len() == 0 {
                    seq![
                        ReplicaActionView::Update(
                            UpdateView {
                                id: put.key,
                                prev: state.version_deps,
                                deps: values_in_order(put.deps),
                            },
                        ),
                    ]
                } else {
                    Seq::empty()
                },
            )
        }
    }

    /// Whether `version` is strictly after the version held for `id` and
    /// after every dependency of the write that waits first for `id`.
    pub open spec fn accepts<V: Version + View<V = VV>>(self, id: KeyId, version: VV) -> bool
        recommends
            self.store.contains_key(id),
            self.store[id].pending_puts.len() > 0,
    {
        let put = self.store[id].pending_puts[0];
        &&& forall|dep: KeyId| #[trigger]
            put.deps.contains_key(dep) ==> dominates::<V>(version, put.deps[dep])
        &&& dominates::<V>(version, self.store[id].version_deps)
    }

    /// What a version from the version service comes to: the write that
    /// waits first for the key takes effect, its client and the other
    /// replicas are told, and the service is asked for the next write.
    pub open spec fn on_update_ok<V: Version + View<V = VV>>(self, id: KeyId, version: VV) -> Step<
        VV,
        A,
    > {
        if !self.store.contains_key(id) {
            Err(Error::MissingPutKeyState)
        } else if self.store[id].pending_puts.len() == 0 {
            Err(Error::MissingPendingPuts)
        } else if !self.accepts::<V>(id, version) {
            Err(Error::NotDominating)
        } else {
            let put = self.store[id].pending_puts[0];
            let rest = self.store[id].pending_puts.skip(1);
            let told = seq![
                ReplicaActionView::SendPutOk(put.client_addr, version),
                ReplicaActionView::BroadcastSyncKey(
                    SyncKeyView { key: put.key, value: put.value, version_deps: version },
                ),
            ];
            Ok(
                (
                    ReplicaState {
                        store: self.store.insert(
                            id,
                            KeyStateView {
                                value: put.value,
                                version_deps: version,
                                pending_puts: rest,
                            },
                        ),
                        ..self
                    },
                    if rest.len() > 0 {
                        told.push(
                            ReplicaActionView::Update(
                                UpdateView {
                                    id,
                                    prev: version,
                                    deps: values_in_order(rest[0].deps),
                                },
                            ),
                        )
                    } else {
                        told
                    },
                ),
            )
        }
    }

    /// Whether the replica holds what the notice depends on: for every key
    /// that its version speaks of, but its own, a version at or after it.
    pub open spec fn can_sync<V: Version + View<V = VV>>(self, sync_key: SyncKeyView<VV>) -> bool {
        forall|id: KeyId| #[trigger]
            V::dep_keys(sync_key.version_deps).contains(id) && id != sync_key.key
                ==> dep_at_least::<V>(self.version_of(id), sync_key.version_deps, id)
    }

    /// What applying a notice comes to: the value is taken where the key is
    /// new or the version is strictly after the one held, and left otherwise.
    pub open spec fn apply_sync<V: Version + View<V = VV>>(
        self,
        sync_key: SyncKeyView<VV>,
    ) -> Result<Self, Error> {
        let key = sync_key.key;
        if self.store.contains_key(key) && self.store[key].pending_puts.len() > 0 {
            Err(Error::ConflictingPut)
        } else if self.store.contains_key(key) && !dominates::<V>(
            sync_key.version_deps,
            self.store[key].version_deps,
        ) {
            Ok(self)
        } else {
            Ok(
                ReplicaState {
                    store: self.store.insert(
                        key,
                        KeyStateView {
                            value: sync_key.value,
                            version_deps: sync_key.version_deps,
                            pending_puts: Seq::empty(),
                        },
                    ),
                    ..self
                },
            )
        }
    }

    /// What going once through `waiting` comes to: each notice in turn is
    /// applied where the replica holds what it depends on by then, and is
    /// put back to wait otherwise.
    pub open spec fn sync_pass<V: Version + View<V = VV>>(
        self,
        waiting: Seq<SyncKeyView<VV>>,
    ) -> Result<Self, Error>
        decreases waiting.len(),
    {
        if waiting.len() == 0 {
            Ok(self)
        } else if self.can_sync::<V>(waiting[0]) {
            match self.apply_sync::<V>(waiting[0]) {
                Ok(state) => state.sync_pass::<V>(waiting.skip(1)),
                Err(error) => Err(error),
            }
        } else {
            ReplicaState {
                pending_sync_keys: self.pending_sync_keys.push(waiting[0]),
                ..self
            }.sync_pass::<V>(waiting.skip(1))
        }
    }

    /// What going through the waiting notices comes to, again and again
    /// until a round applies none.
    pub open spec fn sync_waiting<V: Version + View<V = VV>>(self) -> Result<Self, Error>
        decreases self.pending_sync_keys.len(),
    {
        match (ReplicaState { pending_sync_keys: Seq::empty(), ..self }).sync_pass::<V>(
            self.pending_sync_keys,
        ) {
            Ok(state) => if state.pending_sync_keys.len() < self.pending_sync_keys.len() {
                state.sync_waiting::<V>()
            } else {
                Ok(state)
            },
            Err(error) => Err(error),
        }
    }

    /// What a notice from another replica comes to.
    pub open spec fn on_sync_key<V: Version + View<V = VV>>(
        self,
        sync_key: SyncKeyView<VV>,
    ) -> Result<Self, Error> {
        if !self.can_sync::<V>(sync_key) {
            Ok(
                ReplicaState {
                    pending_sync_keys: self.pending_sync_keys.push(sync_key),
                    ..self
                },
            )
        } else {
            match self.apply_sync::<V>(sync_key) {
                Ok(state) => state.sync_waiting::<V>(),
                Err(error) => Err(error),
            }
        }
    }
}

/// A replica of the store.
pub struct Replica<V, A> {
    store: HashMap<KeyId, KeyState<V, A>>,
    version_zero: V,
    pending_sync_keys: Vec<SyncKey<V>>,
}

impl<V: View, A> View for Replica<V, A> {
    type V = ReplicaState<V::V, A>;

    closed spec fn view(&self) -> ReplicaState<V::V, A> {
        ReplicaState {
            store: self.store@.map_values(|state: KeyState<V, A>| state@),
            version_zero: self.version_zero@,
            pending_sync_keys: sync_key_views(self.pending_sync_keys@),
        }
    }
}

/// The views of a sequence of notices.
pub open spec fn sync_key_views<V: View>(sync_keys: Seq<SyncKey<V>>) -> Seq<SyncKeyView<V::V>> {
    sync_keys.map_values(|sync_key: SyncKey<V>| sync_key@)
}

impl<V: Version, A: Copy> Replica<V, A> {
    /// A replica that holds nothing, where everything starts from
    /// `version_zero`.
    pub fn new(version_zero: V) -> (r: Self)
        ensures
            r@ == (ReplicaState::<V::V, A> {
                store: Map::empty(),
                version_zero: version_zero@,
                pending_sync_keys: Seq::empty(),
            }),
    {
        let r = Replica { store: HashMap::new(), version_zero, pending_sync_keys: Vec::new() };
        assert(r@.store =~= Map::empty());
        assert(r@.pending_sync_keys =~= Seq::empty());
        r
    }

    /// Inserts a record before the replica takes requests. The operation has
    /// to be the insertion of a record with one field, under a key that was
    /// not inserted before.
    pub fn startup_insert(&mut self, op: Op) -> (r: Result<(), Error>)
        ensures
            match old(self)@.startup_insert(op) {
                Ok(state) => r is Ok && final(self)@ == state,
                Err(error) => r == Err::<(), Error>(error) && final(self)@ == old(self)@,
            },
            store_grows::<V, A>(old(self)@, final(self)@),
    {
        match op {
            Op::Insert(key, mut fields) => {
                let id = from_ycsb(key.as_str())?;
                if fields.len() != 1 {
                    return Err(Error::Unimplemented);
                }
                if self.store.contains_key(&id) {
                    return Err(Error::DuplicatedStartupInsertion);
                }
                let value = fields.remove(0);
                let state = KeyState {
                    value,
                    version_deps: self.version_zero.duplicate(),
                    pending_puts: VecDeque::new(),
                };
                proof {
                    assert(state@.pending_puts =~= Seq::empty());
                }
                self.store.insert(id, state);
                proof {
                    assert(self@.store =~= old(self)@.store.insert(id, state@));
                }
                Ok(())
            },
            _ => Err(Error::Unimplemented),
        }
    }

    /// The version of the value under `id`; the version that everything
    /// starts from where there is none.
    fn version_of(&self, id: KeyId) -> (version: &V)
        ensures
            version@ == self@.version_of(id),
    {
        match self.store.get(&id) {
            Some(state) => {
                assert(self@.store[id] == state@);
                &state.version_deps
            },
            None => &self.version_zero,
        }
    }

    /// Handles a read: answers with the value and its version.
    pub fn on_get(&self, get: Get<A>) -> (r: Result<Vec<ReplicaAction<V, A>>, Error>)
        ensures
            match self@.on_get(get) {
                Ok(actions) => r is Ok && action_views(r->Ok_0@) == actions,
                Err(error) => r == Err::<Vec<ReplicaAction<V, A>>, Error>(error),
            },
    {
        match self.store.get(&get.key) {
            Some(state) => {
                assert(self@.store[get.key] == state@);
                let get_ok = GetOk {
                    value: state.value.clone(),
                    version_deps: state.version_deps.duplicate(),
                };
                let mut actions: Vec<ReplicaAction<V, A>> = Vec::new();
                actions.push(ReplicaAction::SendGetOk(get.client_addr, get_ok));
                assert(action_views(actions@) =~= seq![
                    ReplicaActionView::SendGetOk(get.client_addr, get_ok@),
                ]);
                Ok(actions)
            },
            None => Err(Error::MissingState),
        }
    }

    /// Whether the replica holds what `deps` asks for.
    fn satisfies(&self, deps: &BTreeMap<KeyId, V>) -> (r: bool)
        ensures
            r == self@.satisfies::<V>(crate::cops::version_views(deps@)),
    {
        let ghost wanted = crate::cops::version_views(deps@);
        let ghost s = deps.iter().remaining();
        for entry in it: deps.iter()
            invariant
                it.seq() == s,
                s == deps.iter().remaining(),
                wanted == crate::cops::version_views(deps@),
                forall|i: int|
                    0 <= i < it.index() ==> dep_at_least::<V>(
                        self@.version_of(*(#[trigger] s[i]).0),
                        wanted[*s[i].0],
                        *s[i].0,
                    ),
        {
            let (id, dep) = entry;
            assert(deps@.contains_key(*id) && deps@[*id] == *dep);
            assert(wanted.contains_key(*id) && wanted[*id] == dep@);
            match self.version_of(*id).dep_cmp(dep, *id) {
                Ordering::Less => {
                    return false;
                },
                _ => {},
            }
        }
        proof {
            assert forall|id: KeyId| #[trigger] wanted.contains_key(id) implies dep_at_least::<V>(
                self@.version_of(id),
                wanted[id],
                id,
            ) by {
                assert(deps@.contains_key(id));
                assert(s.contains((&id, &deps@[id])));
            }
        }
        true
    }

    /// Handles a write: drops it where the replica does not hold what it
    /// depends on, and has it wait for its version otherwise.
    pub fn on_put(&mut self, put: Put<V, A>) -> (actions: Vec<ReplicaAction<V, A>>)
        ensures
            final(self)@ == old(self)@.on_put::<V>(put@).0,
            action_views(actions@) == old(self)@.on_put::<V>(put@).1,
            store_grows::<V, A>(old(self)@, final(self)@),
    {
        let mut actions: Vec<ReplicaAction<V, A>> = Vec::new();
        if !self.satisfies(&put.deps) {
            assert(action_views(actions@) =~= Seq::empty());
            return actions;
        }
        let mut state = match self.store.remove(&put.key) {
            Some(state) => state,
            None => KeyState {
                value: String::new(),
                version_deps: self.version_zero.duplicate(),
                pending_puts: VecDeque::new(),
            },
        };
        let ghost before = state@;
        proof {
            if !old(self)@.store.contains_key(put.key) {
                assert(before.pending_puts =~= Seq::empty());
            }
            assert(before == old(self)@.state_of(put.key));
        }
        if state.pending_puts.len() == 0 {
            let update = Update {
                id: put.key,
                prev: state.version_deps.duplicate(),
                deps: duplicate_values(&put.deps),
            };
            actions.push(ReplicaAction::Update(update));
            assert(action_views(actions@) =~= seq![ReplicaActionView::Update(update@)]);
        } else {
            assert(action_views(actions@) =~= Seq::empty());
        }
        let key = put.key;
        state.pending_puts.push_back(put);
        proof {
            assert(state@.pending_puts =~= before.pending_puts.push(put@));
        }
        self.store.insert(key, state);
        proof {
            assert(self@.store =~= old(self)@.store.insert(key, state@));
        }
        actions
    }

    /// Whether `version` is strictly after every version in `deps`.
    fn dominates_all(version: &V, deps: &BTreeMap<KeyId, V>) -> (r: bool)
        ensures
            r == (forall|id: KeyId| #[trigger]
                crate::cops::version_views(deps@).contains_key(id) ==> dominates::<V>(
                    version@,
                    crate::cops::version_views(deps@)[id],
                )),
    {
        let ghost wanted = crate::cops::version_views(deps@);
        let ghost s = deps.iter().remaining();
        for entry in it: deps.iter()
            invariant
                it.seq() == s,
                s == deps.iter().remaining(),
                wanted == crate::cops::version_views(deps@),
                forall|i: int|
                    0 <= i < it.index() ==> dominates::<V>(version@, wanted[*(#[trigger] s[i]).0]),
        {
            let (id, dep) = entry;
            assert(deps@.contains_key(*id) && deps@[*id] == *dep);
            assert(wanted.contains_key(*id) && wanted[*id] == dep@);
            match version.causal_cmp(dep) {
                Some(Ordering::Greater) => {},
                _ => {
                    return false;
                },
            }
        }
        proof {
            assert forall|id: KeyId| #[trigger] wanted.contains_key(id) implies dominates::<V>(
                version@,
                wanted[id],
            ) by {
                assert(deps@.contains_key(id));
                assert(s.contains((&id, &deps@[id])));
            }
        }
        true
    }

    /// Handles a version from the version service: the write that waits
    /// first for the key takes effect.
    pub fn on_update_ok(&mut self, update_ok: UpdateOk<V>) -> (r: Result<
        Vec<ReplicaAction<V, A>>,
        Error,
    >)
        ensures
            match old(self)@.on_update_ok::<V>(update_ok.id, update_ok.version_deps@) {
                Ok((state, actions)) => r is Ok && final(self)@ == state && action_views(r->Ok_0@)
                    == actions,
                Err(error) => r == Err::<Vec<ReplicaAction<V, A>>, Error>(error) && final(self)@
                    == old(self)@,
            },
            store_grows::<V, A>(old(self)@, final(self)@),
    {
        let id = update_ok.id;
        let accepted = match self.store.get(&id) {
            None => {
                return Err(Error::MissingPutKeyState);
            },
            Some(state) => {
                assert(old(self)@.store[id] == state@);
                if state.pending_puts.len() == 0 {
                    return Err(Error::MissingPendingPuts);
                }
                let put = &state.pending_puts[0];
                assert(state@.pending_puts[0] == put@);
                let after_deps = Self::dominates_all(&update_ok.version_deps, &put.deps);
                let after_held = match update_ok.version_deps.causal_cmp(&state.version_deps) {
                    Some(Ordering::Greater) => true,
                    _ => false,
                };
                assert(after_held == dominates::<V>(
                    update_ok.version_deps@,
                    old(self)@.store[id].version_deps,
                ));
                assert(put@.deps == crate::cops::version_views(put.deps@));
                after_deps && after_held
            },
        };
        assert(accepted == old(self)@.accepts::<V>(id, update_ok.version_deps@));
        if !accepted {
            return Err(Error::NotDominating);
        }
        let mut state = self.store.remove(&id).unwrap();
        let ghost before = state@;
        let put = state.pending_puts.pop_front().unwrap();
        let mut actions: Vec<ReplicaAction<V, A>> = Vec::new();
        let put_ok = PutOk { version_deps: update_ok.version_deps.duplicate() };
        actions.push(ReplicaAction::SendPutOk(put.client_addr, put_ok));
        let sync_key = SyncKey {
            key: put.key,
            value: put.value.clone(),
            version_deps: update_ok.version_deps.duplicate(),
        };
        actions.push(ReplicaAction::BroadcastSyncKey(sync_key));
        let ghost told = seq![
            ReplicaActionView::SendPutOk(put.client_addr, update_ok.version_deps@),
            ReplicaActionView::BroadcastSyncKey(sync_key@),
        ];
        assert(action_views(actions@) =~= told);
        if state.pending_puts.len() > 0 {
            let next = &state.pending_puts[0];
            let update = Update {
                id,
                prev: update_ok.version_deps.duplicate(),
                deps: duplicate_values(&next.deps),
            };
            actions.push(ReplicaAction::Update(update));
            assert(action_views(actions@) =~= told.push(ReplicaActionView::Update(update@)));
        }
        state.value = put.value;
        state.version_deps = update_ok.version_deps;
        proof {
            assert(state@.pending_puts =~= before.pending_puts.skip(1));
        }
        self.store.insert(id, state);
        proof {
            assert(self@.store =~= old(self)@.store.insert(id, state@));
        }
        Ok(actions)
    }
}

impl<V: Version, A: Copy> Replica<V, A> {
    /// Whether the version held for `id` is at or after `version` on `id`.
    fn holds_at_least(&self, id: KeyId, version: &V) -> (r: bool)
        ensures
            r == dep_at_least::<V>(self@.version_of(id), version@, id),
    {
        match self.version_of(id).dep_cmp(version, id) {
            Ordering::Less => false,
            _ => true,
        }
    }

    /// Whether the replica holds what the notice depends on.
    pub fn can_sync(&self, sync_key: &SyncKey<V>) -> (r: bool)
        ensures
            r == self@.can_sync::<V>(sync_key@),
    {
        let ids = sync_key.version_deps.deps();
        for i in 0..ids.len()
            invariant
                ids@.to_set() == V::dep_keys(sync_key@.version_deps),
                forall|j: int|
                    0 <= j < i && (#[trigger] ids@[j]) != sync_key.key ==> dep_at_least::<V>(
                        self@.version_of(ids@[j]),
                        sync_key@.version_deps,
                        ids@[j],
                    ),
        {
            let id = ids[i];
            assert(ids@.to_set().contains(ids@[i as int]));
            if id != sync_key.key && !self.holds_at_least(id, &sync_key.version_deps) {
                return false;
            }
        }
        proof {
            assert forall|id: KeyId| #[trigger]
                V::dep_keys(sync_key@.version_deps).contains(id) && id
                    != sync_key@.key implies dep_at_least::<V>(
                self@.version_of(id),
                sync_key@.version_deps,
                id,
            ) by {
                assert(ids@.to_set().contains(id));
                let j = choose|j: int| 0 <= j < ids@.len() && ids@[j] == id;
                assert(ids@[j] != sync_key.key);
            }
        }
        true
    }

    /// Applies a notice: takes the value where the key is new or the
    /// version is strictly after the one held. A key with a write under way
    /// here must not be written elsewhere.
    pub fn apply_sync(&mut self, sync_key: SyncKey<V>) -> (r: Result<(), Error>)
        ensures
            match old(self)@.apply_sync::<V>(sync_key@) {
                Ok(state) => r is Ok && final(self)@ == state,
                Err(error) => r == Err::<(), Error>(error) && final(self)@ == old(self)@,
            },
            store_grows::<V, A>(old(self)@, final(self)@),
    {
        let key = sync_key.key;
        match self.store.get(&key) {
            Some(state) => {
                assert(old(self)@.store[key] == state@);
                if state.pending_puts.len() > 0 {
                    return Err(Error::ConflictingPut);
                }
                match sync_key.version_deps.causal_cmp(&state.version_deps) {
                    Some(Ordering::Greater) => {},
                    _ => {
                        return Ok(());
                    },
                }
            },
            None => {},
        }
        let state = KeyState {
            value: sync_key.value,
            version_deps: sync_key.version_deps,
            pending_puts: VecDeque::new(),
        };
        proof {
            assert(state@.pending_puts =~= Seq::empty());
        }
        self.store.insert(key, state);
        proof {
            assert(self@.store =~= old(self)@.store.insert(key, state@));
        }
        Ok(())
    }

    /// Goes once through the waiting notices.
    fn sync_pass(&mut self) -> (r: Result<(), Error>)
        ensures
            match (ReplicaState { pending_sync_keys: Seq::empty(), ..old(self)@ }).sync_pass::<V>(
                old(self)@.pending_sync_keys,
            ) {
                Ok(state) => r is Ok && final(self)@ == state,
                Err(error) => r == Err::<(), Error>(error),
            },
            store_grows::<V, A>(old(self)@, final(self)@),
    {
        let mut waiting: Vec<SyncKey<V>> = Vec::new();
        std::mem::swap(&mut self.pending_sync_keys, &mut waiting);
        let ghost start = self@;
        let ghost all = sync_key_views(waiting@);
        let ghost goal = start.sync_pass::<V>(all);
        proof {
            assert(start == (ReplicaState { pending_sync_keys: Seq::empty(), ..old(self)@ })) by {
                assert(start.pending_sync_keys =~= Seq::empty());
            }
            assert(all == old(self)@.pending_sync_keys);
            assert(all.skip(0) =~= all);
        }
        for sync_key in it: waiting.into_iter()
            invariant
                it.seq() == waiting@,
                all == sync_key_views(waiting@),
                goal == (ReplicaState {
                    pending_sync_keys: Seq::empty(),
                    ..old(self)@
                }).sync_pass::<V>(old(self)@.pending_sync_keys),
                self@.sync_pass::<V>(all.skip(it.index())) == goal,
                store_grows::<V, A>(old(self)@, self@),
        {
            let ghost before = self@;
            let ghost index = it.index();
            proof {
                assert(all.skip(index)[0] == sync_key@);
                assert(all.skip(index).skip(1) =~= all.skip(index + 1));
            }
            if self.can_sync(&sync_key) {
                match self.apply_sync(sync_key) {
                    Ok(()) => {},
                    Err(error) => {
                        return Err(error);
                    },
                }
                proof {
                    lemma_store_grows_transitive::<V, A>(old(self)@, before, self@);
                }
            } else {
                self.pending_sync_keys.push(sync_key);
                proof {
                    assert(self@.pending_sync_keys =~= before.pending_sync_keys.push(sync_key@));
                }
            }
        }
        proof {
            assert(all.skip(all.len() as int) =~= Seq::empty());
        }
        Ok(())
    }

    /// Handles a notice from another replica: it waits where the replica
    /// does not hold what it depends on. Otherwise it is applied, and so are
    /// the waiting notices that this or each other makes ready.
    pub fn on_sync_key(&mut self, sync_key: SyncKey<V>) -> (r: Result<(), Error>)
        ensures
            match old(self)@.on_sync_key::<V>(sync_key@) {
                Ok(state) => r is Ok && final(self)@ == state,
                Err(error) => r == Err::<(), Error>(error),
            },
            store_grows::<V, A>(old(self)@, final(self)@),
    {
        if !self.can_sync(&sync_key) {
            self.pending_sync_keys.push(sync_key);
            proof {
                assert(self@.pending_sync_keys =~= old(self)@.pending_sync_keys.push(sync_key@));
            }
            return Ok(());
        }
        self.apply_sync(sync_key)?;
        let ghost applied = self@;
        loop
            invariant_except_break
                self@.sync_waiting::<V>() == applied.sync_waiting::<V>(),
            invariant
                store_grows::<V, A>(old(self)@, self@),
                old(self)@.on_sync_key::<V>(sync_key@) == applied.sync_waiting::<V>(),
            ensures
                applied.sync_waiting::<V>() == Ok::<ReplicaState<V::V, A>, Error>(self@),
            decreases self@.pending_sync_keys.len(),
        {
            let ghost before = self@;
            assert(self@.pending_sync_keys.len() == self.pending_sync_keys@.len());
            let waiting = self.pending_sync_keys.len();
            match self.sync_pass() {
                Ok(()) => {},
                Err(error) => {
                    proof {
                        lemma_store_grows_transitive::<V, A>(old(self)@, before, self@);
                    }
                    return Err(error);
                },
            }
            proof {
                lemma_store_grows_transitive::<V, A>(old(self)@, before, self@);
                assert(self@.pending_sync_keys.len() == self.pending_sync_keys@.len());
            }
            if self.pending_sync_keys.len() >= waiting {
                break ;
            }
        }
        Ok(())
    }
}

impl<V: Version, A: Copy> Replica<V, A> {
    /// The value under `key` and its version, where the replica holds one.
    pub fn get(&self, key: KeyId) -> (r: Option<(&String, &V)>)
        ensures
            match r {
                Some((value, version)) => self@.store.contains_key(key) && value@
                    == self@.store[key].value && version@ == self@.store[key].version_deps,
                None => !self@.store.contains_key(key),
            },
    {
        match self.store.get(&key) {
            Some(state) => {
                assert(self@.store[key] == state@);
                Some((&state.value, &state.version_deps))
            },
            None => None,
        }
    }

    /// How many notices wait for what they depend on.
    pub fn waiting(&self) -> (r: usize)
        ensures
            r == self@.pending_sync_keys.len(),
    {
        assert(self@.pending_sync_keys.len() == self.pending_sync_keys@.len());
        self.pending_sync_keys.len()
    }
}

/// Whatever grows out of a store that grew out of another grew out of that
/// one.
pub proof fn lemma_store_grows_transitive<V: Version, A>(
    first: ReplicaState<V::V, A>,
    second: ReplicaState<V::V, A>,
    third: ReplicaState<V::V, A>,
)
    requires
        store_grows::<V, A>(first, second),
        store_grows::<V, A>(second, third),
    ensures
        store_grows::<V, A>(first, third),
{
    assert forall|key: KeyId| #[trigger]
        first.store.contains_key(key) implies third.store.contains_key(key) && (
    third.store[key].version_deps == first.store[key].version_deps || dominates::<V>(
        third.store[key].version_deps,
        first.store[key].version_deps,
    )) by {
        assert(second.store.contains_key(key));
        assert(third.store.contains_key(key));
        if dominates::<V>(second.store[key].version_deps, first.store[key].version_deps)
            && dominates::<V>(third.store[key].version_deps, second.store[key].version_deps) {
            V::lemma_causal_order_transitive(
                third.store[key].version_deps,
                second.store[key].version_deps,
                first.store[key].version_deps,
            );
        }
    }
}

/// A replica keeps every key, and the version that it holds for a key only
/// ever moves forward in the causal order.
pub open spec fn store_grows<V: Version, A>(
    before: ReplicaState<V::V, A>,
    after: ReplicaState<V::V, A>,
) -> bool {
    forall|key: KeyId| #[trigger]
        before.store.contains_key(key) ==> after.store.contains_key(key) && (
        after.store[key].version_deps == before.store[key].version_deps || dominates::<V>(
            after.store[key].version_deps,
            before.store[key].version_deps,
        ))
}

} // verus!
