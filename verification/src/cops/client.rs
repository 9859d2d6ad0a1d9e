//! The client: reads and writes through its replica, and checks that what
//! comes back is consistent with what it has seen.
use crate::cops::{
    dep_at_least, dominates, duplicate_versions, from_ycsb, key_id, version_views, DepOrd, Error,
    Get, GetOk, GetOkView, KeyId, Put, PutOk, PutView, Version,
};
use crate::util::TimerId;
use crate::ycsb::{Op, OpResult, OpResultView};
use std::cmp::Ordering;
use std::collections::BTreeMap;
use vstd::prelude::*;
use vstd::std_specs::iter::IteratorSpec;

verus! {

/// What a client wants done after it has handled an event.
#[derive(Debug, PartialEq, Eq)]
pub enum ClientAction<V, A> {
    /// Send the write to the replica at this address.
    SendPut(A, Put<V, A>),
    /// Send the read to the replica at this address.
    SendGet(A, Get<A>),
    /// Disarm the timer.
    Unset(TimerId),
    /// Hand the result to whoever invoked the operation.
    InvokeOk(OpResult),
}

/// A client's action as a plain value.
pub ghost enum ClientActionView<VV, A> {
    SendPut(A, PutView<VV, A>),
    SendGet(A, Get<A>),
    Unset(TimerId),
    InvokeOk(OpResultView),
}

impl<V: View, A> View for ClientAction<V, A> {
    type V = ClientActionView<V::V, A>;

    open spec fn view(&self) -> ClientActionView<V::V, A> {
        match *self {
            ClientAction::SendPut(addr, put) => ClientActionView::SendPut(addr, put@),
            ClientAction::SendGet(addr, get) => ClientActionView::SendGet(addr, get),
            ClientAction::Unset(timer) => ClientActionView::Unset(timer),
            ClientAction::InvokeOk(result) => ClientActionView::InvokeOk(result@),
        }
    }
}

/// The views of a sequence of actions.
pub open spec fn action_views<V: View, A>(actions: Seq<ClientAction<V, A>>) -> Seq<
    ClientActionView<V::V, A>,
> {
    actions.map_values(|a: ClientAction<V, A>| a@)
}

/// Whether `version` is strictly after every version in `deps`.
pub open spec fn after_all<V: Version>(version: V::V, deps: Map<KeyId, V::V>) -> bool {
    forall|id: KeyId| #[trigger] deps.contains_key(id) ==> dominates::<V>(version, deps[id])
}

/// Whether `version` is, on the key `key`, at or after every version in
/// `deps`.
pub open spec fn at_least_all<V: Version>(version: V::V, deps: Map<KeyId, V::V>, key: KeyId)
    -> bool {
    forall|id: KeyId| #[trigger] deps.contains_key(id) ==> dep_at_least::<V>(version, deps[id], key)
}

/// The state of a client as a plain value.
pub ghost struct ClientState<VV, A> {
    pub addr: A,
    pub replica_addr: A,
    pub deps: Map<KeyId, VV>,
    pub working_key: Option<(KeyId, TimerId)>,
}

/// What handling one event comes to: the state afterwards and the actions to
/// take, or the error that ends the session.
pub type Step<VV, A> = Result<(ClientState<VV, A>, Seq<ClientActionView<VV, A>>), Error>;

impl<VV, A> ClientState<VV, A> {
    /// The state with an operation on `key` under way.
    pub open spec fn working_on(self, key: KeyId, timer: TimerId) -> Self {
        ClientState { working_key: Some((key, timer)), ..self }
    }

    /// What invoking `op` comes to, with `timer` armed for it.
    pub open spec fn on_invoke(self, op: Op, timer: TimerId) -> Step<VV, A> {
        match op {
            Op::Read(key) => match key_id(key@) {
                Err(error) => Err(error),
                Ok(id) => if self.working_key is Some {
                    Err(Error::ConcurrentOp)
                } else {
                    Ok(
                        (
                            self.working_on(id, timer),
                            seq![
                                ClientActionView::SendGet(
                                    self.replica_addr,
                                    Get { key: id, client_addr: self.addr },
                                ),
                            ],
                        ),
                    )
                },
            },
            Op::Update(key, index, value) => match key_id(key@) {
                Err(error) => Err(error),
                Ok(id) => if self.working_key is Some {
                    Err(Error::ConcurrentOp)
                } else if index != 0 {
                    Err(Error::Unimplemented)
                } else {
                    Ok(
                        (
                            self.working_on(id, timer),
                            seq![
                                ClientActionView::SendPut(
                                    self.replica_addr,
                                    PutView {
                                        key: id,
                                        value: value@,
                                        deps: self.deps,
                                        client_addr: self.addr,
                                    },
                                ),
                            ],
                        ),
                    )
                },
            },
            _ => Err(Error::Unimplemented),
        }
    }

    /// Whether `version` is strictly after everything that the client
    /// depends on.
    pub open spec fn put_is_causal<V: Version + View<V = VV>>(self, version: VV) -> bool {
        after_all::<V>(version, self.deps)
    }

    /// What the answer to a write comes to: it is taken where its version is
    /// strictly after everything that the client depends on, which from then
    /// on is this write alone. An answer that is not is dropped, and changes
    /// nothing: the client goes on waiting.
    pub open spec fn on_put_ok<V: Version + View<V = VV>>(self, version: VV) -> Step<VV, A> {
        match self.working_key {
            None => Err(Error::MissingWorkingKey),
            Some((key, timer)) => if !self.put_is_causal::<V>(version) {
                Ok((self, Seq::empty()))
            } else {
                Ok(
                    (
                        ClientState {
                            working_key: None,
                            deps: Map::<KeyId, VV>::empty().insert(key, version),
                            ..self
                        },
                        seq![
                            ClientActionView::Unset(timer),
                            ClientActionView::InvokeOk(OpResultView::Done),
                        ],
                    ),
                )
            },
        }
    }

    /// Whether `version` is, on the key `key`, at or after everything that
    /// the client depends on.
    pub open spec fn get_is_causal<V: Version + View<V = VV>>(self, key: KeyId, version: VV)
        -> bool {
        at_least_all::<V>(version, self.deps, key)
    }

    /// What the answer to a read comes to: it is taken where its version is,
    /// on the key that was read, at or after everything that the client
    /// depends on, and the client depends on it from then on. An answer that
    /// is not is dropped, and changes nothing: the client goes on waiting.
    pub open spec fn on_get_ok<V: Version + View<V = VV>>(self, get_ok: GetOkView<VV>) -> Step<
        VV,
        A,
    > {
        match self.working_key {
            None => Err(Error::MissingWorkingKey),
            Some((key, timer)) => if !self.get_is_causal::<V>(key, get_ok.version_deps) {
                Ok((self, Seq::empty()))
            } else {
                Ok(
                    (
                        ClientState {
                            working_key: None,
                            deps: self.deps.insert(key, get_ok.version_deps),
                            ..self
                        },
                        seq![
                            ClientActionView::Unset(timer),
                            ClientActionView::InvokeOk(OpResultView::ReadOk(seq![get_ok.value])),
                        ],
                    ),
                )
            },
        }
    }
}

/// A client of the store.
pub struct Client<V, A> {
    addr: A,
    replica_addr: A,
    deps: BTreeMap<KeyId, V>,
    working_key: Option<(KeyId, TimerId)>,
}

impl<V: View, A> View for Client<V, A> {
    type V = ClientState<V::V, A>;

    closed spec fn view(&self) -> ClientState<V::V, A> {
        ClientState {
            addr: self.addr,
            replica_addr: self.replica_addr,
            deps: version_views(self.deps@),
            working_key: self.working_key,
        }
    }
}

impl<V: Version, A: Copy> Client<V, A> {
    /// A client at `addr` that has seen nothing yet, served by the replica
    /// at `replica_addr`.
    pub fn new(addr: A, replica_addr: A) -> (r: Self)
        ensures
            r@ == (ClientState::<V::V, A> {
                addr,
                replica_addr,
                deps: Map::empty(),
                working_key: None,
            }),
    {
        let r = Client { addr, replica_addr, deps: BTreeMap::new(), working_key: None };
        assert(r@.deps =~= Map::empty());
        r
    }

    /// Starts a read or a write. The caller has armed `timer` to fire after
    /// `INVOKE_TIMEOUT_MILLIS`.
    pub fn on_invoke(&mut self, op: Op, timer: TimerId) -> (r: Result<
        Vec<ClientAction<V, A>>,
        Error,
    >)
        ensures
            match old(self)@.on_invoke(op, timer) {
                Ok((state, actions)) => r is Ok && final(self)@ == state && action_views(r->Ok_0@)
                    == actions,
                Err(error) => r == Err::<Vec<ClientAction<V, A>>, Error>(error) && final(self)@
                    == old(self)@,
            },
    {
        let mut actions: Vec<ClientAction<V, A>> = Vec::new();
        match op {
            Op::Read(key) => {
                let id = from_ycsb(key.as_str())?;
                if self.working_key.is_some() {
                    return Err(Error::ConcurrentOp);
                }
                self.working_key = Some((id, timer));
                let get = Get { key: id, client_addr: self.addr };
                actions.push(ClientAction::SendGet(self.replica_addr, get));
                assert(action_views(actions@) =~= seq![
                    ClientActionView::SendGet(self.replica_addr, get),
                ]);
                Ok(actions)
            },
            Op::Update(key, index, value) => {
                let id = from_ycsb(key.as_str())?;
                if self.working_key.is_some() {
                    return Err(Error::ConcurrentOp);
                }
                if index != 0 {
                    return Err(Error::Unimplemented);
                }
                self.working_key = Some((id, timer));
                let put = Put {
                    key: id,
                    value,
                    deps: duplicate_versions(&self.deps),
                    client_addr: self.addr,
                };
                actions.push(ClientAction::SendPut(self.replica_addr, put));
                assert(action_views(actions@) =~= seq![
                    ClientActionView::SendPut(self.replica_addr, put@),
                ]);
                Ok(actions)
            },
            _ => Err(Error::Unimplemented),
        }
    }

    /// Whether `version` is strictly after everything that the client
    /// depends on.
    fn put_is_causal(&self, version: &V) -> (r: bool)
        ensures
            r == self@.put_is_causal::<V>(version@),
    {
        let ghost deps = self@.deps;
        let ghost s = self.deps.iter().remaining();
        for entry in it: self.deps.iter()
            invariant
                it.seq() == s,
                s == self.deps.iter().remaining(),
                deps == version_views(self.deps@),
                deps == self@.deps,
                forall|i: int|
                    0 <= i < it.index() ==> dominates::<V>(version@, deps[*(#[trigger] s[i]).0]),
        {
            let (id, dep) = entry;
            assert(self.deps@.contains_key(*id) && self.deps@[*id] == *dep);
            assert(deps.contains_key(*id) && deps[*id] == dep@);
            match version.causal_cmp(dep) {
                Some(Ordering::Greater) => {},
                _ => {
                    return false;
                },
            }
        }
        proof {
            assert forall|id: KeyId| #[trigger] deps.contains_key(id) implies dominates::<V>(
                version@,
                deps[id],
            ) by {
                assert(self.deps@.contains_key(id));
                assert(s.contains((&id, &self.deps@[id])));
            }
        }
        true
    }

    /// Whether `version` is, on the key `key`, at or after everything that
    /// the client depends on.
    fn get_is_causal(&self, key: KeyId, version: &V) -> (r: bool)
        ensures
            r == self@.get_is_causal::<V>(key, version@),
    {
        let ghost deps = self@.deps;
        let ghost s = self.deps.iter().remaining();
        for entry in it: self.deps.iter()
            invariant
                it.seq() == s,
                s == self.deps.iter().remaining(),
                deps == version_views(self.deps@),
                deps == self@.deps,
                forall|i: int|
                    0 <= i < it.index() ==> dep_at_least::<V>(
                        version@,
                        deps[*(#[trigger] s[i]).0],
                        key,
                    ),
        {
            let (id, dep) = entry;
            assert(self.deps@.contains_key(*id) && self.deps@[*id] == *dep);
            assert(deps.contains_key(*id) && deps[*id] == dep@);
            match version.dep_cmp(dep, key) {
                Ordering::Less => {
                    return false;
                },
                _ => {},
            }
        }
        proof {
            assert forall|id: KeyId| #[trigger] deps.contains_key(id) implies dep_at_least::<V>(
                version@,
                deps[id],
                key,
            ) by {
                assert(self.deps@.contains_key(id));
                assert(s.contains((&id, &self.deps@[id])));
            }
        }
        true
    }

    /// Handles the answer to a write.
    pub fn on_put_ok(&mut self, put_ok: PutOk<V>) -> (r: Result<Vec<ClientAction<V, A>>, Error>)
        ensures
            match old(self)@.on_put_ok::<V>(put_ok@) {
                Ok((state, actions)) => r is Ok && final(self)@ == state && action_views(r->Ok_0@)
                    == actions,
                Err(error) => r == Err::<Vec<ClientAction<V, A>>, Error>(error) && final(self)@
                    == old(self)@,
            },
    {
        let mut actions: Vec<ClientAction<V, A>> = Vec::new();
        let (key, timer) = match self.working_key {
            Some(working) => working,
            None => {
                return Err(Error::MissingWorkingKey);
            },
        };
        if !self.put_is_causal(&put_ok.version_deps) {
            assert(action_views(actions@) =~= Seq::empty());
            return Ok(actions);
        }
        self.working_key = None;
        let ghost version = put_ok@;
        let mut deps: BTreeMap<KeyId, V> = BTreeMap::new();
        deps.insert(key, put_ok.version_deps);
        self.deps = deps;
        proof {
            assert(self@.deps =~= Map::<KeyId, V::V>::empty().insert(key, version));
        }
        actions.push(ClientAction::Unset(timer));
        actions.push(ClientAction::InvokeOk(OpResult::Done));
        assert(action_views(actions@) =~= seq![
            ClientActionView::Unset(timer),
            ClientActionView::InvokeOk(OpResultView::Done),
        ]);
        Ok(actions)
    }

    /// Handles the answer to a read.
    pub fn on_get_ok(&mut self, get_ok: GetOk<V>) -> (r: Result<Vec<ClientAction<V, A>>, Error>)
        ensures
            match old(self)@.on_get_ok::<V>(get_ok@) {
                Ok((state, actions)) => r is Ok && final(self)@ == state && action_views(r->Ok_0@)
                    == actions,
                Err(error) => r == Err::<Vec<ClientAction<V, A>>, Error>(error) && final(self)@
                    == old(self)@,
            },
    {
        let mut actions: Vec<ClientAction<V, A>> = Vec::new();
        let (key, timer) = match self.working_key {
            Some(working) => working,
            None => {
                return Err(Error::MissingWorkingKey);
            },
        };
        if !self.get_is_causal(key, &get_ok.version_deps) {
            assert(action_views(actions@) =~= Seq::empty());
            return Ok(actions);
        }
        self.working_key = None;
        let ghost before = self@.deps;
        self.deps.insert(key, get_ok.version_deps);
        proof {
            assert(self@.deps =~= before.insert(key, get_ok@.version_deps));
        }
        let mut fields: Vec<String> = Vec::new();
        fields.push(get_ok.value);
        let result = OpResult::ReadOk(fields);
        proof {
            assert(crate::ycsb::field_views(fields@) =~= seq![get_ok@.value]);
        }
        actions.push(ClientAction::Unset(timer));
        actions.push(ClientAction::InvokeOk(result));
        assert(action_views(actions@) =~= seq![
            ClientActionView::Unset(timer),
            ClientActionView::InvokeOk(OpResultView::ReadOk(seq![get_ok@.value])),
        ]);
        Ok(actions)
    }

    /// Handles the timer that ends the wait for the replica: the session
    /// gives up.
    pub fn on_timeout(&self) -> (r: Result<(), Error>)
        ensures
            r == Err::<(), Error>(Error::Timeout),
    {
        Err(Error::Timeout)
    }
}

/// A read that the client takes never goes back, on the key that was read,
/// behind anything that the client depends on.
pub proof fn lemma_read_is_causal<V: Version, A>(
    state: ClientState<V::V, A>,
    get_ok: GetOkView<V::V>,
    seen: KeyId,
)
    requires
        state.on_get_ok::<V>(get_ok) matches Ok((_, actions)) && actions.len() > 0,
        state.deps.contains_key(seen),
    ensures
        state.working_key matches Some((key, _)) && dep_at_least::<V>(
            get_ok.version_deps,
            state.deps[seen],
            key,
        ),
{
}

/// A client reads its own writes: after a write to a key was answered with a
/// version, a read of that key that the client takes next has a version at
/// or after it on that key.
pub proof fn lemma_read_your_writes<V: Version, A>(
    state: ClientState<V::V, A>,
    written: V::V,
    timer: TimerId,
    get_ok: GetOkView<V::V>,
)
    requires
        state.on_put_ok::<V>(written) matches Ok((_, actions)) && actions.len() > 0,
        state.on_put_ok::<V>(written)->Ok_0.0.working_on(
            state.working_key->Some_0.0,
            timer,
        ).on_get_ok::<V>(get_ok) matches Ok((_, actions)) && actions.len() > 0,
    ensures
        dep_at_least::<V>(get_ok.version_deps, written, state.working_key->Some_0.0),
{
    let key = state.working_key->Some_0.0;
    let after_write = state.on_put_ok::<V>(written)->Ok_0.0;
    assert(after_write.deps.contains_key(key));
    lemma_read_is_causal::<V, A>(after_write.working_on(key, timer), get_ok, key);
}

} // verus!
