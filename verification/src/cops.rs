//! Causally consistent key-value store with asynchronous version assignment.
use crate::ycsb::{has_key_prefix, number, parse_number};
use std::cmp::Ordering;
use std::collections::BTreeMap;
use vstd::prelude::*;
use vstd::std_specs::cmp::OrdSpec;
use vstd::std_specs::iter::IteratorSpec;

pub mod client;
pub mod replica;
pub mod version;

verus! {

/// Identifies a key of the store, and a component of a version.
pub type KeyId = u64;

/// The dependency order of a version type: whether one version is at or after
/// whatever another one says about a single key.
pub trait DepOrd: View + Sized {
    /// How `a` compares with `b` on the key `id`.
    spec fn dep_order(a: Self::V, b: Self::V, id: KeyId) -> Ordering;

    /// The keys on which `a` may be after some other version.
    spec fn dep_keys(a: Self::V) -> Set<KeyId>;

    fn dep_cmp(&self, other: &Self, id: KeyId) -> (r: Ordering)
        ensures
            r == Self::dep_order(self@, other@, id),
    ;

    fn deps(&self) -> (r: Vec<KeyId>)
        ensures
            r@.to_set() == Self::dep_keys(self@),
    ;
}

/// A version: a causal fingerprint with a partial order beside its dependency
/// order.
pub trait Version: DepOrd {
    /// The causal order of `a` and `b`, where they are comparable.
    spec fn causal_order(a: Self::V, b: Self::V) -> Option<Ordering>;

    fn causal_cmp(&self, other: &Self) -> (r: Option<Ordering>)
        ensures
            r == Self::causal_order(self@, other@),
    ;

    fn duplicate(&self) -> (r: Self)
        ensures
            r@ == self@,
    ;

    /// What is after something that is after a third is after the third.
    proof fn lemma_causal_order_transitive(a: Self::V, b: Self::V, c: Self::V)
        requires
            Self::causal_order(a, b) == Some(Ordering::Greater),
            Self::causal_order(b, c) == Some(Ordering::Greater),
        ensures
            Self::causal_order(a, c) == Some(Ordering::Greater),
    ;
}

/// Whether `a` is strictly after `b` in the causal order.
pub open spec fn dominates<V: Version>(a: V::V, b: V::V) -> bool {
    V::causal_order(a, b) == Some(Ordering::Greater)
}

/// Whether `a` is at or after `b` on the key `id`.
pub open spec fn dep_at_least<V: DepOrd>(a: V::V, b: V::V, id: KeyId) -> bool {
    V::dep_order(a, b, id) != Ordering::Less
}

/// A client's request to write `value` under `key`, after everything in
/// `deps`.
#[derive(Debug, PartialEq, Eq)]
pub struct Put<V, A> {
    pub key: KeyId,
    pub value: String,
    pub deps: BTreeMap<KeyId, V>,
    pub client_addr: A,
}

/// A write request as a plain value.
pub ghost struct PutView<VV, A> {
    pub key: KeyId,
    pub value: Seq<char>,
    pub deps: Map<KeyId, VV>,
    pub client_addr: A,
}

impl<V: View, A> View for Put<V, A> {
    type V = PutView<V::V, A>;

    open spec fn view(&self) -> PutView<V::V, A> {
        PutView {
            key: self.key,
            value: self.value@,
            deps: version_views(self.deps@),
            client_addr: self.client_addr,
        }
    }
}

/// The replica's answer to a write: the version that the value got.
#[derive(Debug, PartialEq, Eq)]
pub struct PutOk<V> {
    pub version_deps: V,
}

impl<V: View> View for PutOk<V> {
    type V = V::V;

    open spec fn view(&self) -> V::V {
        self.version_deps@
    }
}

/// A client's request to read the value under `key`.
#[derive(Debug, PartialEq, Eq)]
pub struct Get<A> {
    pub key: KeyId,
    pub client_addr: A,
}

/// The replica's answer to a read: the value and its version.
#[derive(Debug, PartialEq, Eq)]
pub struct GetOk<V> {
    pub value: String,
    pub version_deps: V,
}

/// A read's answer as a plain value.
pub ghost struct GetOkView<VV> {
    pub value: Seq<char>,
    pub version_deps: VV,
}

impl<V: View> View for GetOk<V> {
    type V = GetOkView<V::V>;

    open spec fn view(&self) -> GetOkView<V::V> {
        GetOkView { value: self.value@, version_deps: self.version_deps@ }
    }
}

/// A replica's notice to the others that `key` has a new value.
#[derive(Debug, PartialEq, Eq)]
pub struct SyncKey<V> {
    pub key: KeyId,
    pub value: String,
    pub version_deps: V,
}

/// A notice of a new value as a plain value.
pub ghost struct SyncKeyView<VV> {
    pub key: KeyId,
    pub value: Seq<char>,
    pub version_deps: VV,
}

impl<V: View> View for SyncKey<V> {
    type V = SyncKeyView<V::V>;

    open spec fn view(&self) -> SyncKeyView<V::V> {
        SyncKeyView { key: self.key, value: self.value@, version_deps: self.version_deps@ }
    }
}

/// A request to the version service: a version for the key `id` that is
/// after `prev` and after everything in `deps`. The service is asked for one
/// version per key at a time.
#[derive(Debug, PartialEq, Eq)]
pub struct Update<V> {
    pub id: KeyId,
    pub prev: V,
    pub deps: Vec<V>,
}

/// A request to the version service as a plain value.
pub ghost struct UpdateView<VV> {
    pub id: KeyId,
    pub prev: VV,
    pub deps: Seq<VV>,
}

impl<V: View> View for Update<V> {
    type V = UpdateView<V::V>;

    open spec fn view(&self) -> UpdateView<V::V> {
        UpdateView { id: self.id, prev: self.prev@, deps: version_seq_views(self.deps@) }
    }
}

/// The version service's answer: the version for the key `id`.
#[derive(Debug, PartialEq, Eq)]
pub struct UpdateOk<V> {
    pub id: KeyId,
    pub version_deps: V,
}

/// The timer that ends a client's wait for its replica.
#[derive(Debug, Clone, Copy, PartialEq, Eq, Structural)]
pub struct InvokeTimeout;

/// How long a client waits for its replica, in milliseconds.
pub const INVOKE_TIMEOUT_MILLIS: u64 = 800;

/// What a replica sends to a client.
#[derive(Debug, PartialEq, Eq)]
pub enum ToClientMessage<V> {
    PutOk(PutOk<V>),
    GetOk(GetOk<V>),
}

/// What a replica receives, from a client or from another replica.
#[derive(Debug, PartialEq, Eq)]
pub enum ToReplicaMessage<V, A> {
    Put(Put<V, A>),
    Get(Get<A>),
    SyncKey(SyncKey<V>),
}

/// Hands a message for a client to the client.
pub fn to_client_on_buf<V: Version, A: Copy>(
    message: ToClientMessage<V>,
    client: &mut client::Client<V, A>,
) -> (r: Result<Vec<client::ClientAction<V, A>>, Error>)
    ensures
        match (match message {
            ToClientMessage::PutOk(put_ok) => old(client)@.on_put_ok::<V>(put_ok@),
            ToClientMessage::GetOk(get_ok) => old(client)@.on_get_ok::<V>(get_ok@),
        }) {
            Ok((state, actions)) => r is Ok && final(client)@ == state && client::action_views(
                r->Ok_0@,
            ) == actions,
            Err(error) => r == Err::<Vec<client::ClientAction<V, A>>, Error>(error)
                && final(client)@ == old(client)@,
        },
{
    match message {
        ToClientMessage::PutOk(put_ok) => client.on_put_ok(put_ok),
        ToClientMessage::GetOk(get_ok) => client.on_get_ok(get_ok),
    }
}

/// Hands a message for a replica to the replica.
pub fn to_replica_on_buf<V: Version, A: Copy>(
    message: ToReplicaMessage<V, A>,
    replica: &mut replica::Replica<V, A>,
) -> (r: Result<Vec<replica::ReplicaAction<V, A>>, Error>)
    ensures
        match message {
            ToReplicaMessage::Put(put) => r is Ok && final(replica)@ == old(replica)@.on_put::<V>(
                put@,
            ).0 && replica::action_views(r->Ok_0@) == old(replica)@.on_put::<V>(put@).1,
            ToReplicaMessage::Get(get) => final(replica)@ == old(replica)@ && match old(replica)@
                .on_get(get) {
                Ok(actions) => r is Ok && replica::action_views(r->Ok_0@) == actions,
                Err(error) => r == Err::<Vec<replica::ReplicaAction<V, A>>, Error>(error),
            },
            ToReplicaMessage::SyncKey(sync_key) => match old(replica)@.on_sync_key::<V>(
                sync_key@,
            ) {
                Ok(state) => r is Ok && final(replica)@ == state && r->Ok_0@.len() == 0,
                Err(error) => r == Err::<Vec<replica::ReplicaAction<V, A>>, Error>(error),
            },
        },
        replica::store_grows::<V, A>(old(replica)@, final(replica)@),
{
    match message {
        ToReplicaMessage::Put(put) => Ok(replica.on_put(put)),
        ToReplicaMessage::Get(get) => replica.on_get(get),
        ToReplicaMessage::SyncKey(sync_key) => {
            replica.on_sync_key(sync_key)?;
            Ok(Vec::new())
        },
    }
}

/// Why a component gave up. Every one of these is fatal to its session.
#[derive(Debug, Clone, Copy, PartialEq, Eq, Structural)]
pub enum Error {
    /// The operation is not one that the store offers.
    Unimplemented,
    /// The key does not end in a number that fits.
    InvalidKey,
    /// An operation was invoked while another one was under way.
    ConcurrentOp,
    /// A reply arrived while no operation was under way.
    MissingWorkingKey,
    /// The key that a client asked for was never written.
    MissingState,
    /// The key was inserted twice at startup.
    DuplicatedStartupInsertion,
    /// Another replica has written a key while a write to it is under way
    /// here.
    ConflictingPut,
    /// A version arrived for a key that was never written.
    MissingPutKeyState,
    /// A version arrived for a key without a write under way.
    MissingPendingPuts,
    /// The version service handed out a version that is not after what it
    /// was given.
    NotDominating,
    /// The replica did not answer in time.
    Timeout,
    /// A counter of a version cannot be raised any more.
    Exhausted,
}

/// The number of a key: what follows `user`, read as a decimal number.
pub open spec fn key_id(key: Seq<char>) -> Result<KeyId, Error> {
    if !has_key_prefix(key) {
        Err(Error::Unimplemented)
    } else {
        match number(key.skip(4)) {
            Some(id) => Ok(id),
            None => Err(Error::InvalidKey),
        }
    }
}

/// Reads the number of a key of the benchmark.
pub fn from_ycsb(key: &str) -> (r: Result<KeyId, Error>)
    ensures
        r == key_id(key@),
{
    let len = key.unicode_len();
    if len < 4 || key.get_char(0) != 'u' || key.get_char(1) != 's' || key.get_char(2) != 'e'
        || key.get_char(3) != 'r' {
        assert(key@.len() >= 4 ==> key@.take(4)[0] == key@[0] && key@.take(4)[1] == key@[1]
            && key@.take(4)[2] == key@[2] && key@.take(4)[3] == key@[3]);
        return Err(Error::Unimplemented);
    }
    assert(key@.take(4) =~= crate::ycsb::key_prefix());
    match parse_number(key, 4) {
        Some(id) => Ok(id),
        None => Err(Error::InvalidKey),
    }
}

/// The keys of `keys` from the least up.
pub open spec fn in_order(keys: Set<KeyId>) -> Seq<KeyId>
    decreases keys.len(),
    when keys.finite()
{
    if keys.contains(least(keys)) {
        seq![least(keys)] + in_order(keys.remove(least(keys)))
    } else {
        Seq::empty()
    }
}

/// The least key of `keys`.
#[verifier::opaque]
pub open spec fn least(keys: Set<KeyId>) -> KeyId {
    choose|k: KeyId| keys.contains(k) && forall|j: KeyId| keys.contains(j) ==> k <= j
}

/// Whether `keys` goes strictly up.
#[verifier::opaque]
pub open spec fn ascending(keys: Seq<KeyId>) -> bool {
    forall|i: int, j: int| 0 <= i < j < keys.len() ==> keys[i] < keys[j]
}

/// Keys in the order of a sorted map go strictly up.
pub proof fn lemma_increasing_is_ascending(keys: Seq<KeyId>)
    requires
        vstd::std_specs::btree::increasing_seq(keys),
    ensures
        ascending(keys),
{
    reveal(ascending);
    assert forall|i: int, j: int| 0 <= i < j < keys.len() implies keys[i] < keys[j] by {
        assert(keys[i].cmp_spec(&keys[j]) is Less);
    }
}

/// The first of keys that go strictly up is the least of them.
proof fn lemma_first_is_least(keys: Seq<KeyId>)
    requires
        ascending(keys),
        keys.len() > 0,
    ensures
        keys.to_set().contains(keys[0]),
        least(keys.to_set()) == keys[0],
{
    reveal(ascending);
    reveal(least);
    let set = keys.to_set();
    assert(set.contains(keys[0]));
    assert forall|j: KeyId| set.contains(j) implies keys[0] <= j by {
        let i = choose|i: int| 0 <= i < keys.len() && keys[i] == j;
        if i > 0 {
            assert(keys[0] < keys[i]);
        }
    }
    let first = least(set);
    assert(set.contains(first) && forall|j: KeyId| set.contains(j) ==> first <= j);
    assert(first <= keys[0]);
    assert(keys[0] <= first);
}

/// Without their first, keys that go strictly up are the same set without
/// it.
proof fn lemma_rest_of_ascending(keys: Seq<KeyId>)
    requires
        ascending(keys),
        keys.len() > 0,
    ensures
        keys.skip(1).to_set() == keys.to_set().remove(keys[0]),
        ascending(keys.skip(1)),
{
    reveal(ascending);
    let rest = keys.skip(1);
    let set = keys.to_set();
    assert forall|k: KeyId| rest.to_set().contains(k) implies set.remove(keys[0]).contains(k) by {
        let i = choose|i: int| 0 <= i < rest.len() && rest[i] == k;
        assert(keys[i + 1] == k);
        assert(keys[0] < keys[i + 1]);
    }
    assert forall|k: KeyId| set.remove(keys[0]).contains(k) implies rest.to_set().contains(k) by {
        let i = choose|i: int| 0 <= i < keys.len() && keys[i] == k;
        assert(i > 0);
        assert(rest[i - 1] == k);
    }
    assert(rest.to_set() =~= set.remove(keys[0]));
    assert forall|i: int, j: int| 0 <= i < j < rest.len() implies rest[i] < rest[j] by {
        assert(keys[i + 1] < keys[j + 1]);
    }
}

/// A sequence of keys that goes strictly up is its own keys from the least
/// up.
pub proof fn lemma_ascending_in_order(keys: Seq<KeyId>)
    requires
        ascending(keys),
    ensures
        in_order(keys.to_set()) == keys,
    decreases keys.len(),
{
    let set = keys.to_set();
    vstd::seq_lib::seq_to_set_is_finite(keys);
    if keys.len() == 0 {
        assert(set =~= Set::empty());
        assert(in_order(set) =~= keys);
    } else {
        lemma_first_is_least(keys);
        lemma_rest_of_ascending(keys);
        lemma_ascending_in_order(keys.skip(1));
        assert(in_order(set) == seq![keys[0]] + in_order(set.remove(keys[0])));
        assert(seq![keys[0]] + keys.skip(1) =~= keys);
    }
}

/// The values of `m` in the order of their keys.
pub open spec fn values_in_order<T>(m: Map<KeyId, T>) -> Seq<T> {
    in_order(m.dom()).map_values(|k: KeyId| m[k])
}

/// The views of the versions of a map.
pub open spec fn version_views<V: View>(m: Map<KeyId, V>) -> Map<KeyId, V::V> {
    m.map_values(|v: V| v@)
}

/// The views of a sequence of versions.
pub open spec fn version_seq_views<V: View>(s: Seq<V>) -> Seq<V::V> {
    s.map_values(|v: V| v@)
}

/// Copies a map of versions.
pub fn duplicate_versions<V: Version>(versions: &BTreeMap<KeyId, V>) -> (r: BTreeMap<KeyId, V>)
    ensures
        version_views(r@) == version_views(versions@),
{
    let mut copy: BTreeMap<KeyId, V> = BTreeMap::new();
    let ghost s = versions.iter().remaining();
    for entry in it: versions.iter()
        invariant
            it.seq() == s,
            s == versions.iter().remaining(),
            forall|id: KeyId| #[trigger]
                copy@.contains_key(id) ==> versions@.contains_key(id) && copy@[id]@
                    == versions@[id]@,
            forall|i: int| 0 <= i < it.index() ==> copy@.contains_key(*(#[trigger] s[i]).0),
    {
        let (id, version) = entry;
        copy.insert(*id, version.duplicate());
    }
    proof {
        assert forall|id: KeyId| versions@.contains_key(id) implies copy@.contains_key(id) by {
            assert(s.contains((&id, &versions@[id])));
        }
        assert(version_views(copy@) =~= version_views(versions@));
    }
    copy
}

/// Copies the versions of a map, in the order of their keys.
pub fn duplicate_values<V: Version>(versions: &BTreeMap<KeyId, V>) -> (r: Vec<V>)
    ensures
        version_seq_views(r@) == values_in_order(version_views(versions@)),
{
    let mut copy: Vec<V> = Vec::new();
    let ghost s = versions.iter().remaining();
    let ghost keys = s.map_values(|kv: (&KeyId, &V)| *kv.0);
    for entry in it: versions.iter()
        invariant
            it.seq() == s,
            s == versions.iter().remaining(),
            copy@.len() == it.index(),
            forall|i: int|
                0 <= i < it.index() ==> (#[trigger] copy@[i])@ == versions@[*s[i].0]@
                    && versions@.contains_key(*s[i].0),
    {
        let (id, version) = entry;
        assert(versions@.contains_key(*id) && versions@[*id] == *version);
        copy.push(version.duplicate());
    }
    proof {
        lemma_increasing_is_ascending(keys);
        assert(keys.to_set() =~= versions@.dom()) by {
            assert forall|k: KeyId| versions@.dom().contains(k) implies keys.to_set().contains(
                k,
            ) by {
                assert(s.contains((&k, &versions@[k])));
                let i = choose|i: int| 0 <= i < s.len() && s[i] == (&k, &versions@[k]);
                assert(keys[i] == k);
            }
        }
        lemma_ascending_in_order(keys);
        assert(version_views(versions@).dom() =~= versions@.dom());
        assert(version_seq_views(copy@) =~= values_in_order(version_views(versions@)));
    }
    copy
}

} // verus!
