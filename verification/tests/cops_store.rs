use augustus::cops::client::{Client, ClientAction};
use augustus::cops::replica::{Replica, ReplicaAction};
use augustus::cops::version::{OrdinaryVersion, OrdinaryVersionService};
use augustus::cops::{
    to_client_on_buf, to_replica_on_buf, DepOrd, Error, Get, GetOk, Put, PutOk, SyncKey,
    ToClientMessage, ToReplicaMessage, Update, UpdateOk,
};
use augustus::util::TimerId;
use augustus::ycsb::{Op, OpResult};
use std::cmp::Ordering;
use std::collections::BTreeMap;

type TestReplica = Replica<OrdinaryVersion, u32>;
type TestClient = Client<OrdinaryVersion, u32>;

const CLIENT: u32 = 100;
const REPLICA: u32 = 1;

fn version(entries: &[(u64, u32)]) -> OrdinaryVersion {
    OrdinaryVersion(entries.iter().copied().collect::<BTreeMap<u64, u32>>())
}

fn deps(entries: &[(u64, OrdinaryVersion)]) -> BTreeMap<u64, OrdinaryVersion> {
    entries.iter().cloned().collect()
}

fn put(key: u64, value: &str, deps: BTreeMap<u64, OrdinaryVersion>) -> Put<OrdinaryVersion, u32> {
    Put { key, value: value.to_string(), deps, client_addr: CLIENT }
}

fn sync_key(key: u64, value: &str, version_deps: OrdinaryVersion) -> SyncKey<OrdinaryVersion> {
    SyncKey { key, value: value.to_string(), version_deps }
}

/// Runs a write through the replica and the version service, and returns the
/// version that the client is told and the notice for the other replicas.
fn write(
    replica: &mut TestReplica,
    request: Put<OrdinaryVersion, u32>,
) -> (OrdinaryVersion, SyncKey<OrdinaryVersion>) {
    let mut actions = replica.on_put(request);
    assert_eq!(actions.len(), 1);
    let ReplicaAction::Update(update) = actions.remove(0) else {
        panic!("expected a request for a version")
    };
    let update_ok = OrdinaryVersionService.send(update).unwrap();
    let mut actions = replica.on_update_ok(update_ok).unwrap();
    assert_eq!(actions.len(), 2);
    let ReplicaAction::SendPutOk(addr, put_ok) = actions.remove(0) else {
        panic!("expected an answer to the client")
    };
    assert_eq!(addr, CLIENT);
    let ReplicaAction::BroadcastSyncKey(sync_key) = actions.remove(0) else {
        panic!("expected a notice")
    };
    (put_ok.version_deps, sync_key)
}

fn read(replica: &TestReplica, key: u64) -> GetOk<OrdinaryVersion> {
    let mut actions = replica.on_get(Get { key, client_addr: CLIENT }).unwrap();
    assert_eq!(actions.len(), 1);
    let ReplicaAction::SendGetOk(addr, get_ok) = actions.remove(0) else {
        panic!("expected an answer to the client")
    };
    assert_eq!(addr, CLIENT);
    get_ok
}

#[test]
fn startup_insert_stores_the_value_at_version_zero() {
    let mut replica = TestReplica::new(version(&[]));
    replica.startup_insert(Op::Insert("user3".to_string(), vec!["v".to_string()])).unwrap();
    let get_ok = read(&replica, 3);
    assert_eq!(get_ok, GetOk { value: "v".to_string(), version_deps: version(&[]) });
}

#[test]
fn startup_insert_rejects_what_it_cannot_take() {
    let mut replica = TestReplica::new(version(&[]));
    assert_eq!(replica.startup_insert(Op::Read("user1".to_string())), Err(Error::Unimplemented));
    assert_eq!(
        replica.startup_insert(Op::Insert("key1".to_string(), vec!["v".to_string()])),
        Err(Error::Unimplemented)
    );
    assert_eq!(
        replica.startup_insert(Op::Insert("userx".to_string(), vec!["v".to_string()])),
        Err(Error::InvalidKey)
    );
    assert_eq!(
        replica.startup_insert(Op::Insert("user1".to_string(), vec![])),
        Err(Error::Unimplemented)
    );
    assert_eq!(
        replica.startup_insert(Op::Insert(
            "user1".to_string(),
            vec!["a".to_string(), "b".to_string()]
        )),
        Err(Error::Unimplemented)
    );
    replica.startup_insert(Op::Insert("user1".to_string(), vec!["v".to_string()])).unwrap();
    assert_eq!(
        replica.startup_insert(Op::Insert("user1".to_string(), vec!["w".to_string()])),
        Err(Error::DuplicatedStartupInsertion)
    );
    assert_eq!(read(&replica, 1).value, "v");
}

#[test]
fn get_of_a_missing_key_fails() {
    let replica = TestReplica::new(version(&[]));
    assert_eq!(replica.on_get(Get { key: 1, client_addr: CLIENT }), Err(Error::MissingState));
}

#[test]
fn put_asks_the_version_service_once_per_key() {
    let mut replica = TestReplica::new(version(&[]));
    let first = replica.on_put(put(1, "a", BTreeMap::new()));
    assert_eq!(
        first,
        vec![ReplicaAction::Update(Update { id: 1, prev: version(&[]), deps: vec![] })]
    );
    let second = replica.on_put(put(1, "b", BTreeMap::new()));
    assert_eq!(second, vec![]);
    let actions = replica
        .on_update_ok(UpdateOk { id: 1, version_deps: version(&[(1, 1)]) })
        .unwrap();
    assert_eq!(
        actions,
        vec![
            ReplicaAction::SendPutOk(CLIENT, PutOk { version_deps: version(&[(1, 1)]) }),
            ReplicaAction::BroadcastSyncKey(sync_key(1, "a", version(&[(1, 1)]))),
            ReplicaAction::Update(Update { id: 1, prev: version(&[(1, 1)]), deps: vec![] }),
        ]
    );
    assert_eq!(read(&replica, 1).value, "a");
}

#[test]
fn put_with_unsatisfied_dependency_is_dropped() {
    let mut replica = TestReplica::new(version(&[]));
    let actions = replica.on_put(put(1, "a", deps(&[(2, version(&[(2, 1)]))])));
    assert_eq!(actions, vec![]);
    assert_eq!(replica.get(1), None);
}

#[test]
fn update_deps_are_in_key_order() {
    let mut replica = TestReplica::new(version(&[]));
    let (v5, _) = write(&mut replica, put(5, "e", BTreeMap::new()));
    let (v2, _) = write(&mut replica, put(2, "b", BTreeMap::new()));
    let actions = replica.on_put(put(9, "z", deps(&[(5, v5.clone()), (2, v2.clone())])));
    assert_eq!(
        actions,
        vec![ReplicaAction::Update(Update { id: 9, prev: version(&[]), deps: vec![v2, v5] })]
    );
}

#[test]
fn update_ok_errors() {
    let mut replica = TestReplica::new(version(&[]));
    assert_eq!(
        replica.on_update_ok(UpdateOk { id: 1, version_deps: version(&[(1, 1)]) }),
        Err(Error::MissingPutKeyState)
    );
    replica.startup_insert(Op::Insert("user1".to_string(), vec!["v".to_string()])).unwrap();
    assert_eq!(
        replica.on_update_ok(UpdateOk { id: 1, version_deps: version(&[(1, 1)]) }),
        Err(Error::MissingPendingPuts)
    );
    replica.on_put(put(1, "a", BTreeMap::new()));
    assert_eq!(
        replica.on_update_ok(UpdateOk { id: 1, version_deps: version(&[]) }),
        Err(Error::NotDominating)
    );
    assert_eq!(read(&replica, 1).value, "v");
}

#[test]
fn update_ok_must_dominate_the_dependencies() {
    let mut replica = TestReplica::new(version(&[]));
    let (v2, _) = write(&mut replica, put(2, "b", BTreeMap::new()));
    assert_eq!(v2, version(&[(2, 1)]));
    replica.on_put(put(1, "a", deps(&[(2, v2)])));
    assert_eq!(
        replica.on_update_ok(UpdateOk { id: 1, version_deps: version(&[(1, 1)]) }),
        Err(Error::NotDominating)
    );
    assert!(replica
        .on_update_ok(UpdateOk { id: 1, version_deps: version(&[(1, 1), (2, 1)]) })
        .is_ok());
}

#[test]
fn read_your_writes() {
    let mut replica = TestReplica::new(version(&[]));
    let mut client = TestClient::new(CLIENT, REPLICA);
    let actions = client
        .on_invoke(Op::Update("user1".to_string(), 0, "v1".to_string()), TimerId(1))
        .unwrap();
    assert_eq!(
        actions,
        vec![ClientAction::SendPut(REPLICA, put(1, "v1", BTreeMap::new()))]
    );
    let (v1, _) = write(&mut replica, put(1, "v1", BTreeMap::new()));
    let actions = client.on_put_ok(PutOk { version_deps: v1.clone() }).unwrap();
    assert_eq!(
        actions,
        vec![ClientAction::Unset(TimerId(1)), ClientAction::InvokeOk(OpResult::Done)]
    );
    let actions = client.on_invoke(Op::Read("user1".to_string()), TimerId(2)).unwrap();
    assert_eq!(
        actions,
        vec![ClientAction::SendGet(REPLICA, Get { key: 1, client_addr: CLIENT })]
    );
    let get_ok = read(&replica, 1);
    assert_eq!(get_ok.value, "v1");
    assert!(get_ok.version_deps.dep_cmp(&v1, 1) != Ordering::Less);
    let actions = client.on_get_ok(get_ok).unwrap();
    assert_eq!(
        actions,
        vec![
            ClientAction::Unset(TimerId(2)),
            ClientAction::InvokeOk(OpResult::ReadOk(vec!["v1".to_string()])),
        ]
    );
}

#[test]
fn causal_chain() {
    let mut replica = TestReplica::new(version(&[]));
    let (v1, _) = write(&mut replica, put(1, "a", BTreeMap::new()));
    let (v2, _) = write(&mut replica, put(2, "b", deps(&[(1, v1.clone())])));
    assert_eq!(v1, version(&[(1, 1)]));
    assert_eq!(v2, version(&[(1, 1), (2, 1)]));
    assert_eq!(v2.partial_cmp(&v1), Some(Ordering::Greater));

    // a client that has seen only the second write reads the first key from
    // a replica that holds only the first write
    let mut other = TestReplica::new(version(&[]));
    other.on_sync_key(sync_key(1, "a", v1.clone())).unwrap();
    let mut fresh = TestClient::new(CLIENT, REPLICA);
    fresh.on_invoke(Op::Read("user2".to_string()), TimerId(1)).unwrap();
    fresh.on_get_ok(GetOk { value: "b".to_string(), version_deps: v2.clone() }).unwrap();
    fresh.on_invoke(Op::Read("user1".to_string()), TimerId(2)).unwrap();
    let get_ok = read(&other, 1);
    assert_eq!(get_ok.version_deps, v1);
    assert!(get_ok.version_deps.dep_cmp(&v2, 1) != Ordering::Less);
    let actions = fresh.on_get_ok(get_ok).unwrap();
    assert_eq!(actions.len(), 2);

    // a version of the first key that is behind is not taken
    let mut fresh = TestClient::new(CLIENT, REPLICA);
    fresh.on_invoke(Op::Read("user2".to_string()), TimerId(1)).unwrap();
    fresh
        .on_get_ok(GetOk { value: "b".to_string(), version_deps: version(&[(1, 2), (2, 1)]) })
        .unwrap();
    fresh.on_invoke(Op::Read("user1".to_string()), TimerId(2)).unwrap();
    let actions = fresh
        .on_get_ok(GetOk { value: "a".to_string(), version_deps: v1 })
        .unwrap();
    assert_eq!(actions, vec![]);
}

#[test]
fn sync_buffering() {
    let mut origin = TestReplica::new(version(&[]));
    let (v1, sync1) = write(&mut origin, put(1, "a", BTreeMap::new()));
    let (v2, sync2) = write(&mut origin, put(2, "b", deps(&[(1, v1.clone())])));

    let mut replica = TestReplica::new(version(&[]));
    assert!(!replica.can_sync(&sync2));
    replica.on_sync_key(sync2).unwrap();
    assert_eq!(replica.waiting(), 1);
    assert_eq!(replica.get(2), None);
    replica.on_sync_key(sync1).unwrap();
    assert_eq!(replica.waiting(), 0);
    assert_eq!(replica.get(1), Some((&"a".to_string(), &v1)));
    assert_eq!(replica.get(2), Some((&"b".to_string(), &v2)));
}

#[test]
fn waiting_notices_are_applied_until_none_is_ready() {
    let mut origin = TestReplica::new(version(&[]));
    let (v1, sync1) = write(&mut origin, put(1, "a", BTreeMap::new()));
    let (v2, sync2) = write(&mut origin, put(2, "b", deps(&[(1, v1.clone())])));
    let (v3, sync3) = write(&mut origin, put(3, "c", deps(&[(2, v2.clone())])));

    let mut replica = TestReplica::new(version(&[]));
    replica.on_sync_key(sync3).unwrap();
    replica.on_sync_key(sync2).unwrap();
    assert_eq!(replica.waiting(), 2);
    replica.on_sync_key(sync1).unwrap();
    assert_eq!(replica.waiting(), 0);
    assert_eq!(replica.get(3), Some((&"c".to_string(), &v3)));
}

#[test]
fn sync_takes_only_what_is_strictly_after() {
    let mut replica = TestReplica::new(version(&[]));
    replica.apply_sync(sync_key(1, "new", version(&[(1, 2)]))).unwrap();
    replica.apply_sync(sync_key(1, "old", version(&[(1, 1)]))).unwrap();
    assert_eq!(replica.get(1), Some((&"new".to_string(), &version(&[(1, 2)]))));
    replica.apply_sync(sync_key(1, "same", version(&[(1, 2)]))).unwrap();
    assert_eq!(replica.get(1), Some((&"new".to_string(), &version(&[(1, 2)]))));
    replica.apply_sync(sync_key(1, "other", version(&[(2, 9)]))).unwrap();
    assert_eq!(replica.get(1), Some((&"new".to_string(), &version(&[(1, 2)]))));
    replica.apply_sync(sync_key(1, "newer", version(&[(1, 3)]))).unwrap();
    assert_eq!(replica.get(1), Some((&"newer".to_string(), &version(&[(1, 3)]))));
}

#[test]
fn sync_conflicts_with_a_write_under_way() {
    let mut replica = TestReplica::new(version(&[]));
    replica.on_put(put(1, "a", BTreeMap::new()));
    assert_eq!(
        replica.apply_sync(sync_key(1, "b", version(&[(1, 1)]))),
        Err(Error::ConflictingPut)
    );
    assert_eq!(
        replica.on_sync_key(sync_key(1, "b", version(&[(1, 1)]))),
        Err(Error::ConflictingPut)
    );
}

#[test]
fn client_errors() {
    let mut client = TestClient::new(CLIENT, REPLICA);
    assert_eq!(
        client.on_put_ok(PutOk { version_deps: version(&[(1, 1)]) }),
        Err(Error::MissingWorkingKey)
    );
    assert_eq!(
        client.on_get_ok(GetOk { value: "v".to_string(), version_deps: version(&[]) }),
        Err(Error::MissingWorkingKey)
    );
    assert_eq!(
        client.on_invoke(Op::Delete("user1".to_string()), TimerId(1)),
        Err(Error::Unimplemented)
    );
    assert_eq!(
        client.on_invoke(Op::Update("user1".to_string(), 1, "v".to_string()), TimerId(1)),
        Err(Error::Unimplemented)
    );
    assert_eq!(client.on_invoke(Op::Read("user".to_string()), TimerId(1)), Err(Error::InvalidKey));
    client.on_invoke(Op::Read("user1".to_string()), TimerId(1)).unwrap();
    assert_eq!(
        client.on_invoke(Op::Read("user2".to_string()), TimerId(2)),
        Err(Error::ConcurrentOp)
    );
    assert_eq!(client.on_timeout(), Err(Error::Timeout));
}

#[test]
fn put_ok_that_is_not_after_the_deps_is_dropped() {
    let mut client = TestClient::new(CLIENT, REPLICA);
    client.on_invoke(Op::Read("user1".to_string()), TimerId(1)).unwrap();
    client
        .on_get_ok(GetOk { value: "v".to_string(), version_deps: version(&[(1, 2)]) })
        .unwrap();
    client.on_invoke(Op::Update("user1".to_string(), 0, "w".to_string()), TimerId(2)).unwrap();
    let actions = client.on_put_ok(PutOk { version_deps: version(&[(1, 2)]) }).unwrap();
    assert_eq!(actions, vec![]);
    // the client goes on waiting: an answer that is after the deps is taken
    let actions = client.on_put_ok(PutOk { version_deps: version(&[(1, 3)]) }).unwrap();
    assert_eq!(
        actions,
        vec![ClientAction::Unset(TimerId(2)), ClientAction::InvokeOk(OpResult::Done)]
    );
    assert_eq!(
        client.on_put_ok(PutOk { version_deps: version(&[(1, 4)]) }),
        Err(Error::MissingWorkingKey)
    );
}

#[test]
fn get_ok_that_is_behind_the_deps_is_dropped() {
    let v2 = version(&[(1, 1), (2, 1)]);
    let mut client = TestClient::new(CLIENT, REPLICA);
    client.on_invoke(Op::Read("user2".to_string()), TimerId(1)).unwrap();
    client.on_get_ok(GetOk { value: "b".to_string(), version_deps: v2.clone() }).unwrap();
    client.on_invoke(Op::Read("user1".to_string()), TimerId(2)).unwrap();
    // older than what the client has seen of the key: dropped, nothing changes
    let actions = client
        .on_get_ok(GetOk { value: "".to_string(), version_deps: OrdinaryVersion::new() })
        .unwrap();
    assert_eq!(actions, vec![]);
    assert_eq!(
        client.on_invoke(Op::Read("user1".to_string()), TimerId(3)),
        Err(Error::ConcurrentOp)
    );
    // the answer that is not behind is taken, with the timer of the read
    let actions = client
        .on_get_ok(GetOk { value: "a".to_string(), version_deps: version(&[(1, 1)]) })
        .unwrap();
    assert_eq!(
        actions,
        vec![
            ClientAction::Unset(TimerId(2)),
            ClientAction::InvokeOk(OpResult::ReadOk(vec!["a".to_string()])),
        ]
    );
    // the dropped answer has left the deps alone: the next write carries both
    let actions = client
        .on_invoke(Op::Update("user3".to_string(), 0, "c".to_string()), TimerId(4))
        .unwrap();
    assert_eq!(
        actions,
        vec![ClientAction::SendPut(
            REPLICA,
            put(3, "c", deps(&[(1, version(&[(1, 1)])), (2, v2)]))
        )]
    );
}

#[test]
fn messages_are_handed_to_their_handlers() {
    let mut replica = TestReplica::new(version(&[]));
    let actions =
        to_replica_on_buf(ToReplicaMessage::Put(put(1, "a", BTreeMap::new())), &mut replica)
            .unwrap();
    assert_eq!(actions.len(), 1);
    assert_eq!(
        to_replica_on_buf(ToReplicaMessage::Get(Get { key: 7, client_addr: CLIENT }), &mut replica),
        Err(Error::MissingState)
    );
    let actions = to_replica_on_buf(
        ToReplicaMessage::SyncKey(sync_key(2, "b", version(&[(2, 1)]))),
        &mut replica,
    )
    .unwrap();
    assert_eq!(actions, vec![]);
    assert_eq!(replica.get(2), Some((&"b".to_string(), &version(&[(2, 1)]))));

    let mut client = TestClient::new(CLIENT, REPLICA);
    client.on_invoke(Op::Read("user2".to_string()), TimerId(1)).unwrap();
    let actions = to_client_on_buf(
        ToClientMessage::GetOk(GetOk { value: "b".to_string(), version_deps: version(&[(2, 1)]) }),
        &mut client,
    )
    .unwrap();
    assert_eq!(actions.len(), 2);
    assert_eq!(
        to_client_on_buf(
            ToClientMessage::PutOk(PutOk { version_deps: version(&[(2, 2)]) }),
            &mut client
        ),
        Err(Error::MissingWorkingKey)
    );
}
