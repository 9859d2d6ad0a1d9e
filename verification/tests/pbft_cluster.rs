use augustus::pbft::client::{Client, ClientAction, To};
use augustus::pbft::replica::Replica;
use augustus::pbft::{
    proposal_verified, to_client_on_buf, to_replica_on_buf, App, AppError, Commit, Error,
    PrePrepare, Prepare, ReplicaAction, Reply, Signature, ToReplica, Verifiable, H256,
};
use augustus::util::{Payload, Request, TimerId};
use std::collections::VecDeque;

const CLIENT_ADDR: u32 = 1000;

/// Answers with the operation behind a count of the operations so far.
struct Counting {
    executed: Vec<Vec<u8>>,
}

impl App for Counting {
    fn execute(&mut self, op: &[u8]) -> Result<Vec<u8>, AppError> {
        if op == b"fail" {
            return Err(AppError);
        }
        self.executed.push(op.to_vec());
        let mut result = vec![self.executed.len() as u8];
        result.extend_from_slice(op);
        Ok(result)
    }
}

fn digest(requests: &[Request<u32>]) -> H256 {
    let mut bytes = [0u8; 32];
    let mut at = 0;
    for request in requests {
        for byte in request
            .client_id
            .to_be_bytes()
            .iter()
            .chain(request.seq.to_be_bytes().iter())
            .chain(request.op.0.iter())
        {
            bytes[at % 32] = bytes[at % 32].wrapping_mul(31).wrapping_add(*byte);
            at += 1;
        }
    }
    H256(bytes)
}

fn signature(replica_id: u8) -> Signature {
    let mut bytes = [0u8; 64];
    bytes[0] = replica_id;
    bytes[1] = 0xa5;
    Signature(bytes)
}

fn signed<M>(inner: M, replica_id: u8) -> Verifiable<M> {
    Verifiable { inner, signature: signature(replica_id) }
}

fn replica(id: u8) -> Replica<Counting, u32> {
    Replica::new(id, Counting { executed: Vec::new() }, 4, 1)
}

fn request(client_id: u32, seq: u32, op: &[u8]) -> Request<u32> {
    Request { client_id, client_addr: CLIENT_ADDR, seq, op: Payload(op.to_vec()) }
}

enum Event {
    Message(ToReplica<u32>),
    SignedPrePrepare(Verifiable<PrePrepare>, Vec<Request<u32>>),
    VerifiedPrePrepare(Verifiable<PrePrepare>, Vec<Request<u32>>),
    SignedPrepare(Verifiable<Prepare>),
    VerifiedPrepare(Verifiable<Prepare>),
    SignedCommit(Verifiable<Commit>),
    VerifiedCommit(Verifiable<Commit>),
}

struct Cluster {
    replicas: Vec<Replica<Counting, u32>>,
    events: VecDeque<(usize, Event)>,
    replies: Vec<Reply>,
}

impl Cluster {
    fn new(num_replica: usize, num_faulty: usize) -> Self {
        Cluster {
            replicas: (0..num_replica)
                .map(|id| {
                    Replica::new(id as u8, Counting { executed: Vec::new() }, num_replica, num_faulty)
                })
                .collect(),
            events: VecDeque::new(),
            replies: Vec::new(),
        }
    }

    fn broadcast(&mut self, from: usize, message: impl Fn() -> ToReplica<u32>) {
        for to in 0..self.replicas.len() {
            if to != from {
                self.events.push_back((to, Event::Message(message())));
            }
        }
    }

    fn perform(&mut self, at: usize, actions: Vec<ReplicaAction<u32>>) {
        let id = at as u8;
        for action in actions {
            match action {
                ReplicaAction::SendReply(addr, reply) => {
                    assert_eq!(addr, CLIENT_ADDR);
                    self.replies.push(reply);
                }
                ReplicaAction::BroadcastPrePrepare(pre_prepare, requests) => {
                    self.broadcast(at, || ToReplica::PrePrepare(pre_prepare, requests.clone()))
                }
                ReplicaAction::BroadcastPrepare(prepare) => {
                    self.broadcast(at, || ToReplica::Prepare(prepare))
                }
                ReplicaAction::BroadcastCommit(commit) => {
                    self.broadcast(at, || ToReplica::Commit(commit))
                }
                ReplicaAction::SignPrePrepare { view_num, op_num, requests } => {
                    let pre_prepare = PrePrepare { view_num, op_num, digest: digest(&requests) };
                    self.events
                        .push_back((at, Event::SignedPrePrepare(signed(pre_prepare, id), requests)));
                }
                ReplicaAction::VerifyPrePrepare { replica_id, pre_prepare, requests } => {
                    let signed = pre_prepare.signature == signature(replica_id as u8);
                    if proposal_verified(&pre_prepare, &digest(&requests), signed) {
                        self.events
                            .push_back((at, Event::VerifiedPrePrepare(pre_prepare, requests)));
                    }
                }
                ReplicaAction::SignPrepare(prepare) => {
                    self.events.push_back((at, Event::SignedPrepare(signed(prepare, id))))
                }
                ReplicaAction::VerifyPrepare(prepare) => {
                    if prepare.signature == signature(prepare.inner.replica_id) {
                        self.events.push_back((at, Event::VerifiedPrepare(prepare)));
                    }
                }
                ReplicaAction::SignCommit(commit) => {
                    self.events.push_back((at, Event::SignedCommit(signed(commit, id))))
                }
                ReplicaAction::VerifyCommit(commit) => {
                    if commit.signature == signature(commit.inner.replica_id) {
                        self.events.push_back((at, Event::VerifiedCommit(commit)));
                    }
                }
            }
        }
    }

    fn run(&mut self) {
        while let Some((at, event)) = self.events.pop_front() {
            let replica = &mut self.replicas[at];
            let actions = match event {
                Event::Message(message) => to_replica_on_buf(message, replica),
                Event::SignedPrePrepare(pre_prepare, requests) => {
                    replica.on_signed_pre_prepare(pre_prepare, requests)
                }
                Event::VerifiedPrePrepare(pre_prepare, requests) => {
                    replica.on_verified_pre_prepare(pre_prepare, requests)
                }
                Event::SignedPrepare(prepare) => replica.on_signed_prepare(prepare),
                Event::VerifiedPrepare(prepare) => replica.on_verified_prepare(prepare),
                Event::SignedCommit(commit) => replica.on_signed_commit(commit),
                Event::VerifiedCommit(commit) => replica.on_verified_commit(commit),
            }
            .unwrap();
            self.perform(at, actions);
        }
    }

    fn send(&mut self, to: To, request: &Request<u32>) {
        match to {
            To::Replica(id) => {
                self.events.push_back((id as usize, Event::Message(ToReplica::Request(request.clone()))))
            }
            To::All => {
                for id in 0..self.replicas.len() {
                    self.events.push_back((id, Event::Message(ToReplica::Request(request.clone()))));
                }
            }
        }
    }
}

#[test]
fn normal_case() {
    let mut cluster = Cluster::new(4, 1);
    let mut client = Client::new(7, CLIENT_ADDR, 4, 1);
    let mut actions = client.on_invoke(Payload(b"x".to_vec()), TimerId(1)).unwrap();
    assert_eq!(actions, vec![ClientAction::Send(To::Replica(0), request(7, 1, b"x"))]);
    let ClientAction::Send(to, request) = actions.remove(0) else { unreachable!() };
    cluster.send(to, &request);
    cluster.run();

    for replica in &cluster.replicas {
        assert_eq!(replica.commit_num(), 1);
        assert!(replica.commits_at(1) >= 3);
        assert!(replica.prepares_at(1) + 1 >= 3);
        assert_eq!(replica.app().executed, vec![b"x".to_vec()]);
    }
    assert_eq!(cluster.replicas[0].op_num(), 1);
    assert_eq!(cluster.replies.len(), 4);

    let expected = Payload(vec![1, b'x']);
    let mut outcomes = Vec::new();
    for reply in std::mem::take(&mut cluster.replies) {
        assert_eq!(reply.seq, 1);
        assert_eq!(reply.result, expected);
        assert_eq!(reply.view_num, 0);
        outcomes.push(to_client_on_buf(reply, &mut client));
    }
    assert_eq!(outcomes[0], vec![]);
    assert_eq!(
        outcomes[1],
        vec![ClientAction::Unset(TimerId(1)), ClientAction::InvokeOk(7, expected)]
    );
    assert_eq!(outcomes[2], vec![]);
    assert_eq!(outcomes[3], vec![]);
    assert!(!client.is_invoking());
}

#[test]
fn duplicate_request() {
    let mut cluster = Cluster::new(4, 1);
    let mut client = Client::new(7, CLIENT_ADDR, 4, 1);
    client.on_invoke(Payload(b"x".to_vec()), TimerId(1)).unwrap();
    cluster.send(To::Replica(0), &request(7, 1, b"x"));
    cluster.run();
    cluster.replies.clear();

    let resend = client.on_resend();
    assert_eq!(resend, vec![ClientAction::Send(To::All, request(7, 1, b"x"))]);
    cluster.send(To::All, &request(7, 1, b"x"));
    cluster.run();
    assert_eq!(cluster.replies.len(), 4);
    for (id, reply) in cluster.replies.iter().enumerate() {
        assert_eq!(
            *reply,
            Reply { seq: 1, result: Payload(vec![1, b'x']), view_num: 0, replica_id: id as u8 }
        );
    }
    for replica in &cluster.replicas {
        assert_eq!(replica.commit_num(), 1);
        assert_eq!(replica.app().executed.len(), 1);
    }
    assert_eq!(cluster.replicas[0].op_num(), 1);
}

#[test]
fn requests_are_executed_in_order_on_every_replica() {
    let mut cluster = Cluster::new(4, 1);
    for seq in 1..=5u32 {
        cluster.send(To::Replica(0), &request(7, seq, &[b'a' + seq as u8]));
        cluster.send(To::Replica(0), &request(8, seq, &[b'A' + seq as u8]));
    }
    cluster.run();
    let executed = cluster.replicas[0].app().executed.clone();
    assert_eq!(executed.len(), 10);
    for replica in &cluster.replicas {
        assert_eq!(replica.app().executed, executed);
        assert_eq!(replica.commit_num(), cluster.replicas[0].commit_num());
    }
}

#[test]
fn old_request_is_ignored() {
    let mut cluster = Cluster::new(4, 1);
    cluster.send(To::Replica(0), &request(7, 2, b"x"));
    cluster.run();
    cluster.replies.clear();
    cluster.send(To::All, &request(7, 1, b"y"));
    cluster.run();
    assert_eq!(cluster.replies, vec![]);
    assert_eq!(cluster.replicas[0].op_num(), 1);
}

#[test]
fn backup_does_not_forward() {
    let mut backup = replica(1);
    assert!(!backup.is_primary());
    assert_eq!(backup.on_request(request(7, 1, b"x")), Err(Error::Unimplemented));
}

#[test]
fn primary_batches_while_a_position_is_open() {
    let mut primary = replica(0);
    assert!(primary.is_primary());
    let actions = primary.on_request(request(7, 1, b"x")).unwrap();
    assert_eq!(
        actions,
        vec![ReplicaAction::SignPrePrepare {
            view_num: 0,
            op_num: 1,
            requests: vec![request(7, 1, b"x")]
        }]
    );
    assert_eq!(primary.on_request(request(8, 1, b"y")).unwrap(), vec![]);
    assert_eq!(primary.op_num(), 1);
}

#[test]
fn batch_holds_at_most_a_hundred_requests() {
    let mut cluster = Cluster::new(1, 0);
    let primary = &mut cluster.replicas[0];
    primary.on_request(request(0, 1, b"first")).unwrap();
    for client in 1..=150u32 {
        assert_eq!(primary.on_request(request(client, 1, b"x")).unwrap(), vec![]);
    }
    let first = PrePrepare { view_num: 0, op_num: 1, digest: digest(&[request(0, 1, b"first")]) };
    cluster.events.push_back((
        0,
        Event::SignedPrePrepare(signed(first, 0), vec![request(0, 1, b"first")]),
    ));
    let mut sizes = Vec::new();
    while let Some((at, event)) = cluster.events.pop_front() {
        let replica = &mut cluster.replicas[at];
        let actions = match event {
            Event::SignedPrePrepare(pre_prepare, requests) => {
                sizes.push(requests.len());
                replica.on_signed_pre_prepare(pre_prepare, requests)
            }
            Event::SignedPrepare(prepare) => replica.on_signed_prepare(prepare),
            Event::SignedCommit(commit) => replica.on_signed_commit(commit),
            Event::VerifiedPrepare(prepare) => replica.on_verified_prepare(prepare),
            Event::VerifiedCommit(commit) => replica.on_verified_commit(commit),
            _ => unreachable!(),
        }
        .unwrap();
        // a single replica never receives its own proposal: it prepares at once
        for action in &actions {
            if let ReplicaAction::BroadcastPrePrepare(pre_prepare, _) = action {
                let prepare = Prepare {
                    view_num: pre_prepare.inner.view_num,
                    op_num: pre_prepare.inner.op_num,
                    digest: pre_prepare.inner.digest,
                    replica_id: 0,
                };
                cluster.events.push_back((0, Event::SignedPrepare(signed(prepare, 0))));
            }
        }
        cluster.perform(at, actions);
    }
    assert_eq!(sizes, vec![1, 100, 50]);
    assert_eq!(cluster.replicas[0].commit_num(), 3);
    assert_eq!(cluster.replies.len(), 151);
}

#[test]
fn future_view_is_not_implemented() {
    let mut replica = replica(1);
    let digest = H256([0; 32]);
    let pre_prepare = signed(PrePrepare { view_num: 1, op_num: 1, digest }, 0);
    assert_eq!(replica.on_pre_prepare(pre_prepare, vec![]), Err(Error::Unimplemented));
    let prepare = signed(Prepare { view_num: 1, op_num: 1, digest, replica_id: 2 }, 2);
    assert_eq!(replica.on_prepare(prepare), Err(Error::Unimplemented));
    assert_eq!(replica.submit_prepare(prepare), Err(Error::Unimplemented));
    let commit = signed(Commit { view_num: 1, op_num: 1, digest, replica_id: 2 }, 2);
    assert_eq!(replica.on_commit(commit), Err(Error::Unimplemented));
    assert_eq!(replica.submit_commit(commit), Err(Error::Unimplemented));
}

#[test]
fn proposal_is_recorded_once() {
    let mut primary = replica(0);
    let requests = vec![request(7, 1, b"x")];
    let pre_prepare = signed(PrePrepare { view_num: 0, op_num: 1, digest: digest(&requests) }, 0);
    assert_eq!(
        primary.on_signed_pre_prepare(pre_prepare, requests.clone()).unwrap(),
        vec![ReplicaAction::BroadcastPrePrepare(pre_prepare, requests.clone())]
    );
    assert_eq!(
        primary.on_signed_pre_prepare(pre_prepare, requests.clone()),
        Err(Error::DuplicateLogInsertion)
    );
    assert_eq!(primary.on_pre_prepare(pre_prepare, requests.clone()).unwrap(), vec![]);
    assert_eq!(primary.on_verified_pre_prepare(pre_prepare, requests).unwrap(), vec![]);
}

#[test]
fn signed_vote_needs_its_log_position() {
    let mut replica = replica(1);
    let digest = H256([0; 32]);
    let prepare = signed(Prepare { view_num: 0, op_num: 3, digest, replica_id: 1 }, 1);
    assert_eq!(replica.on_signed_prepare(prepare), Err(Error::MissingLogEntry));
    let commit = signed(Commit { view_num: 0, op_num: 3, digest, replica_id: 1 }, 1);
    assert_eq!(replica.on_signed_commit(commit), Err(Error::MissingLogEntry));
}

#[test]
fn votes_are_verified_one_at_a_time_per_position() {
    let mut replica = replica(3);
    let digest = H256([7; 32]);
    let vote = |replica_id: u8| {
        signed(Prepare { view_num: 0, op_num: 1, digest, replica_id }, replica_id)
    };
    assert_eq!(replica.on_prepare(vote(0)).unwrap(), vec![ReplicaAction::VerifyPrepare(vote(0))]);
    assert_eq!(replica.on_prepare(vote(1)).unwrap(), vec![]);
    assert_eq!(replica.on_prepare(vote(2)).unwrap(), vec![]);
    // the vote that arrived last is verified next
    assert_eq!(
        replica.on_verified_prepare(vote(0)).unwrap(),
        vec![ReplicaAction::VerifyPrepare(vote(2))]
    );
    assert_eq!(
        replica.on_verified_prepare(vote(2)).unwrap(),
        vec![ReplicaAction::VerifyPrepare(vote(1))]
    );
    assert_eq!(replica.on_verified_prepare(vote(1)).unwrap(), vec![]);
    // nothing is under verification any more
    assert_eq!(replica.on_prepare(vote(0)).unwrap(), vec![ReplicaAction::VerifyPrepare(vote(0))]);
}

#[test]
fn votes_for_another_digest_are_dropped_when_the_proposal_arrives() {
    let mut replica = replica(3);
    let requests = vec![request(7, 1, b"x")];
    let good = digest(&requests);
    let bad = H256([9; 32]);
    let vote = |replica_id: u8, digest: H256| {
        signed(Prepare { view_num: 0, op_num: 1, digest, replica_id }, replica_id)
    };
    assert_eq!(replica.on_verified_prepare(vote(1, bad)).unwrap(), vec![]);
    assert_eq!(replica.on_verified_prepare(vote(2, bad)).unwrap(), vec![]);
    let pre_prepare = signed(PrePrepare { view_num: 0, op_num: 1, digest: good }, 0);
    let own = Prepare { view_num: 0, op_num: 1, digest: good, replica_id: 3 };
    assert_eq!(
        replica.on_verified_pre_prepare(pre_prepare, requests).unwrap(),
        vec![ReplicaAction::SignPrepare(own)]
    );
    // a vote for the other digest is no longer worth verifying
    assert_eq!(replica.on_prepare(vote(1, bad)).unwrap(), vec![]);
    // with the votes for the other digest gone, one vote does not prepare
    assert_eq!(replica.on_verified_prepare(vote(1, good)).unwrap(), vec![]);
    assert_eq!(replica.prepares_at(1), 0);
    let commit = Commit { view_num: 0, op_num: 1, digest: good, replica_id: 3 };
    assert_eq!(
        replica.on_signed_prepare(signed(own, 3)).unwrap(),
        vec![ReplicaAction::BroadcastPrepare(signed(own, 3)), ReplicaAction::SignCommit(commit)]
    );
    assert_eq!(replica.prepares_at(1), 2);
}

#[test]
fn commits_wait_for_the_position_to_be_prepared() {
    let mut replica = replica(3);
    let requests = vec![request(7, 1, b"x")];
    let good = digest(&requests);
    let commit = |replica_id: u8| {
        signed(Commit { view_num: 0, op_num: 1, digest: good, replica_id }, replica_id)
    };
    let prepare = |replica_id: u8| {
        signed(Prepare { view_num: 0, op_num: 1, digest: good, replica_id }, replica_id)
    };
    let pre_prepare = signed(PrePrepare { view_num: 0, op_num: 1, digest: good }, 0);
    replica.on_verified_pre_prepare(pre_prepare, requests).unwrap();
    for id in 0..3 {
        assert_eq!(replica.on_verified_commit(commit(id)).unwrap(), vec![]);
    }
    assert_eq!(replica.commits_at(1), 0);
    assert_eq!(replica.commit_num(), 0);
    replica.on_verified_prepare(prepare(1)).unwrap();
    replica.on_verified_prepare(prepare(2)).unwrap();
    assert_eq!(replica.prepares_at(1), 2);
    let actions = replica.on_verified_commit(commit(3)).unwrap();
    assert_eq!(
        actions,
        vec![ReplicaAction::SendReply(
            CLIENT_ADDR,
            Reply { seq: 1, result: Payload(vec![1, b'x']), view_num: 0, replica_id: 3 }
        )]
    );
    assert_eq!(replica.commits_at(1), 4);
    assert_eq!(replica.commit_num(), 1);
}

#[test]
fn application_failure_ends_the_session() {
    let mut cluster = Cluster::new(1, 0);
    let primary = &mut cluster.replicas[0];
    let requests = vec![request(7, 1, b"fail")];
    primary.on_request(request(7, 1, b"fail")).unwrap();
    let good = digest(&requests);
    let pre_prepare = signed(PrePrepare { view_num: 0, op_num: 1, digest: good }, 0);
    primary.on_signed_pre_prepare(pre_prepare, requests).unwrap();
    let prepare = signed(Prepare { view_num: 0, op_num: 1, digest: good, replica_id: 0 }, 0);
    primary.on_signed_prepare(prepare).unwrap();
    let commit = signed(Commit { view_num: 0, op_num: 1, digest: good, replica_id: 0 }, 0);
    assert_eq!(primary.on_signed_commit(commit), Err(Error::App));
}

#[test]
fn client_waits_for_matching_replies() {
    let mut client = Client::new(7, CLIENT_ADDR, 4, 1);
    client.on_invoke(Payload(b"x".to_vec()), TimerId(5)).unwrap();
    let reply = |replica_id: u8, result: &[u8]| Reply {
        seq: 1,
        result: Payload(result.to_vec()),
        view_num: 0,
        replica_id,
    };
    assert_eq!(client.on_reply(reply(0, b"a")), vec![]);
    assert_eq!(client.on_reply(reply(1, b"b")), vec![]);
    // the same replica again does not count twice
    assert_eq!(client.on_reply(reply(1, b"b")), vec![]);
    // a reply to another request does not count
    assert_eq!(client.on_reply(Reply { seq: 2, ..reply(2, b"b") }), vec![]);
    assert_eq!(
        client.on_reply(reply(3, b"b")),
        vec![ClientAction::Unset(TimerId(5)), ClientAction::InvokeOk(7, Payload(b"b".to_vec()))]
    );
    // the invocation is over
    assert_eq!(client.on_reply(reply(2, b"b")), vec![]);
}

#[test]
fn client_invokes_one_operation_at_a_time() {
    let mut client = Client::new(7, CLIENT_ADDR, 4, 1);
    client.on_invoke(Payload(b"x".to_vec()), TimerId(1)).unwrap();
    assert_eq!(
        client.on_invoke(Payload(b"y".to_vec()), TimerId(2)),
        Err(Error::ConcurrentInvocation)
    );
    assert_eq!(client.do_send(To::Replica(2)), ClientAction::Send(To::Replica(2), request(7, 1, b"x")));
}

#[test]
fn client_adopts_the_view_of_the_replies() {
    let mut client = Client::new(7, CLIENT_ADDR, 4, 1);
    client.on_invoke(Payload(b"x".to_vec()), TimerId(1)).unwrap();
    for replica_id in 0..2 {
        client.on_reply(Reply {
            seq: 1,
            result: Payload(b"r".to_vec()),
            view_num: 6,
            replica_id,
        });
    }
    let actions = client.on_invoke(Payload(b"y".to_vec()), TimerId(2)).unwrap();
    assert_eq!(actions, vec![ClientAction::Send(To::Replica(2), request(7, 2, b"y"))]);
}

#[test]
fn close_batch_takes_the_waiting_requests() {
    let mut primary = replica(0);
    primary.on_request(request(7, 1, b"x")).unwrap();
    assert_eq!(primary.on_request(request(8, 1, b"y")).unwrap(), vec![]);
    assert_eq!(primary.on_request(request(9, 1, b"z")).unwrap(), vec![]);
    assert_eq!(
        primary.close_batch(),
        ReplicaAction::SignPrePrepare {
            view_num: 0,
            op_num: 2,
            requests: vec![request(8, 1, b"y"), request(9, 1, b"z")]
        }
    );
    assert_eq!(primary.op_num(), 2);
}

#[test]
fn insert_prepare_prepares_with_a_quorum() {
    let mut backup = replica(3);
    let requests = vec![request(7, 1, b"x")];
    let good = digest(&requests);
    let vote = |replica_id: u8| {
        signed(Prepare { view_num: 0, op_num: 1, digest: good, replica_id }, replica_id)
    };
    let pre_prepare = signed(PrePrepare { view_num: 0, op_num: 1, digest: good }, 0);
    backup.on_verified_pre_prepare(pre_prepare, requests).unwrap();
    assert_eq!(backup.insert_prepare(vote(1)).unwrap(), vec![]);
    // the same replica again does not count twice
    assert_eq!(backup.insert_prepare(vote(1)).unwrap(), vec![]);
    assert_eq!(backup.prepares_at(1), 0);
    assert_eq!(
        backup.insert_prepare(vote(2)).unwrap(),
        vec![ReplicaAction::SignCommit(Commit {
            view_num: 0,
            op_num: 1,
            digest: good,
            replica_id: 3
        })]
    );
    assert_eq!(backup.prepares_at(1), 2);
    // one more vote is not enough for the position to be prepared again
    assert_eq!(backup.insert_prepare(vote(3)).unwrap(), vec![]);
    // two more would be: the position cannot take them
    assert_eq!(backup.insert_prepare(vote(0)), Err(Error::DuplicateLogInsertion));
}

#[test]
fn insert_commit_commits_with_a_quorum() {
    let mut backup = replica(3);
    let requests = vec![request(7, 1, b"x")];
    let good = digest(&requests);
    let pre_prepare = signed(PrePrepare { view_num: 0, op_num: 1, digest: good }, 0);
    backup.on_verified_pre_prepare(pre_prepare, requests).unwrap();
    for replica_id in 1..3 {
        let prepare = Prepare { view_num: 0, op_num: 1, digest: good, replica_id };
        backup.insert_prepare(signed(prepare, replica_id)).unwrap();
    }
    let vote = |replica_id: u8| {
        signed(Commit { view_num: 0, op_num: 1, digest: good, replica_id }, replica_id)
    };
    assert_eq!(backup.insert_commit(vote(0)).unwrap(), vec![]);
    assert_eq!(backup.insert_commit(vote(1)).unwrap(), vec![]);
    assert_eq!(backup.commits_at(1), 0);
    assert_eq!(
        backup.insert_commit(vote(2)).unwrap(),
        vec![ReplicaAction::SendReply(
            CLIENT_ADDR,
            Reply { seq: 1, result: Payload(vec![1, b'x']), view_num: 0, replica_id: 3 }
        )]
    );
    assert_eq!(backup.commits_at(1), 3);
    assert_eq!(backup.commit_num(), 1);
    for replica_id in 0..2 {
        assert_eq!(backup.insert_commit(vote(replica_id)).unwrap(), vec![]);
    }
    assert_eq!(backup.insert_commit(vote(2)), Err(Error::DuplicateLogInsertion));
}

#[test]
fn positions_are_executed_without_gaps() {
    let mut backup = replica(3);
    let first = vec![request(7, 1, b"x")];
    let second = vec![request(8, 1, b"y"), request(7, 2, b"z")];
    let prepare_and_commit = |backup: &mut Replica<Counting, u32>, op_num: u32, batch: &Vec<Request<u32>>| {
        let good = digest(batch);
        let pre_prepare = signed(PrePrepare { view_num: 0, op_num, digest: good }, 0);
        backup.on_verified_pre_prepare(pre_prepare, batch.clone()).unwrap();
        for replica_id in 1..3 {
            let prepare = Prepare { view_num: 0, op_num, digest: good, replica_id };
            backup.insert_prepare(signed(prepare, replica_id)).unwrap();
        }
        let mut actions = Vec::new();
        for replica_id in 0..3 {
            let commit = Commit { view_num: 0, op_num, digest: good, replica_id };
            actions.extend(backup.insert_commit(signed(commit, replica_id)).unwrap());
        }
        actions
    };
    // the second position is committed first: nothing is executed yet
    assert_eq!(prepare_and_commit(&mut backup, 2, &second), vec![]);
    assert_eq!(backup.commits_at(2), 3);
    assert_eq!(backup.commit_num(), 0);
    let actions = prepare_and_commit(&mut backup, 1, &first);
    let reply = |seq: u32, result: &[u8]| {
        ReplicaAction::SendReply(
            CLIENT_ADDR,
            Reply { seq, result: Payload(result.to_vec()), view_num: 0, replica_id: 3 },
        )
    };
    assert_eq!(actions, vec![reply(1, &[1, b'x']), reply(1, &[2, b'y']), reply(2, &[3, b'z'])]);
    assert_eq!(backup.commit_num(), 2);
    assert_eq!(backup.app().executed, vec![b"x".to_vec(), b"y".to_vec(), b"z".to_vec()]);
}

#[test]
fn proposal_needs_its_digest_and_its_signature() {
    let requests = vec![request(7, 1, b"x")];
    let good = digest(&requests);
    let pre_prepare = signed(PrePrepare { view_num: 0, op_num: 1, digest: good }, 0);
    assert!(proposal_verified(&pre_prepare, &good, true));
    assert!(!proposal_verified(&pre_prepare, &good, false));
    assert!(!proposal_verified(&pre_prepare, &H256([1; 32]), true));
    assert!(H256([1; 32]).same(&H256([1; 32])));
    let mut other = [1; 32];
    other[31] = 2;
    assert!(!H256([1; 32]).same(&H256(other)));
}

#[test]
fn votes_wait_for_the_proposal() {
    let mut backup = replica(3);
    let second = vec![request(8, 1, b"y")];
    let first = vec![request(7, 1, b"x")];
    // the proposal for the second position makes the log hold the first
    let later = signed(PrePrepare { view_num: 0, op_num: 2, digest: digest(&second) }, 0);
    backup.on_verified_pre_prepare(later, second).unwrap();
    let good = digest(&first);
    let bad = H256([9; 32]);
    let vote = |replica_id: u8, digest: H256| {
        signed(Prepare { view_num: 0, op_num: 1, digest, replica_id }, replica_id)
    };
    // a quorum of votes without a proposal does not prepare the position
    assert_eq!(backup.insert_prepare(vote(0, bad)).unwrap(), vec![]);
    assert_eq!(backup.insert_prepare(vote(1, good)).unwrap(), vec![]);
    assert_eq!(backup.insert_prepare(vote(2, bad)).unwrap(), vec![]);
    assert_eq!(backup.prepares_at(1), 0);
    // the proposal drops the votes for another digest
    let pre_prepare = signed(PrePrepare { view_num: 0, op_num: 1, digest: good }, 0);
    backup.on_verified_pre_prepare(pre_prepare, first).unwrap();
    assert_eq!(backup.prepares_at(1), 0);
    // a vote against the proposal is dropped
    assert_eq!(backup.insert_prepare(vote(2, bad)).unwrap(), vec![]);
    assert_eq!(backup.prepares_at(1), 0);
    // the second vote for the digest of the proposal prepares the position
    let commit = Commit { view_num: 0, op_num: 1, digest: good, replica_id: 3 };
    assert_eq!(
        backup.insert_prepare(vote(2, good)).unwrap(),
        vec![ReplicaAction::SignCommit(commit)]
    );
    assert_eq!(backup.prepares_at(1), 2);
}

#[test]
fn commits_wait_for_the_proposal() {
    let mut backup = replica(3);
    let second = vec![request(8, 1, b"y")];
    let first = vec![request(7, 1, b"x")];
    let later = signed(PrePrepare { view_num: 0, op_num: 2, digest: digest(&second) }, 0);
    backup.on_verified_pre_prepare(later, second).unwrap();
    let good = digest(&first);
    let bad = H256([9; 32]);
    let vote = |replica_id: u8, digest: H256| {
        signed(Commit { view_num: 0, op_num: 1, digest, replica_id }, replica_id)
    };
    for replica_id in 0..3 {
        assert_eq!(backup.insert_commit(vote(replica_id, bad)).unwrap(), vec![]);
    }
    assert_eq!(backup.commits_at(1), 0);
    let pre_prepare = signed(PrePrepare { view_num: 0, op_num: 1, digest: good }, 0);
    backup.on_verified_pre_prepare(pre_prepare, first).unwrap();
    for replica_id in 1..3 {
        let prepare = Prepare { view_num: 0, op_num: 1, digest: good, replica_id };
        backup.insert_prepare(signed(prepare, replica_id)).unwrap();
    }
    assert_eq!(backup.prepares_at(1), 2);
    // the votes for the other digest are gone, and more of them are dropped
    assert_eq!(backup.insert_commit(vote(0, good)).unwrap(), vec![]);
    assert_eq!(backup.insert_commit(vote(1, bad)).unwrap(), vec![]);
    assert_eq!(backup.insert_commit(vote(1, good)).unwrap(), vec![]);
    assert_eq!(backup.commits_at(1), 0);
    assert_eq!(backup.app().executed.len(), 0);
    assert_eq!(backup.insert_commit(vote(2, good)).unwrap().len(), 1);
    assert_eq!(backup.commits_at(1), 3);
    assert_eq!(backup.commit_num(), 1);
    assert_eq!(backup.app().executed, vec![b"x".to_vec()]);
}

#[test]
fn primary_closes_one_batch_after_a_commit() {
    let mut primary = replica(0);
    let first = vec![request(0, 1, b"first")];
    primary.on_request(request(0, 1, b"first")).unwrap();
    for client in 1..=150u32 {
        assert_eq!(primary.on_request(request(client, 1, b"x")).unwrap(), vec![]);
    }
    let good = digest(&first);
    let pre_prepare = signed(PrePrepare { view_num: 0, op_num: 1, digest: good }, 0);
    primary.on_signed_pre_prepare(pre_prepare, first).unwrap();
    for replica_id in 1..3 {
        let prepare = Prepare { view_num: 0, op_num: 1, digest: good, replica_id };
        primary.insert_prepare(signed(prepare, replica_id)).unwrap();
    }
    let mut actions = Vec::new();
    for replica_id in 0..3 {
        let commit = Commit { view_num: 0, op_num: 1, digest: good, replica_id };
        actions.extend(primary.insert_commit(signed(commit, replica_id)).unwrap());
    }
    assert_eq!(primary.commit_num(), 1);
    assert_eq!(primary.op_num(), 2);
    assert_eq!(actions.len(), 2);
    assert!(matches!(&actions[0], ReplicaAction::SendReply(_, reply) if reply.seq == 1));
    let ReplicaAction::SignPrePrepare { view_num: 0, op_num: 2, requests } = &actions[1] else {
        panic!("expected a batch for the second position")
    };
    assert_eq!(requests.len(), 100);
    assert_eq!(requests[0], request(1, 1, b"x"));
    // fifty requests still wait: the next one does not close a batch either
    assert_eq!(primary.on_request(request(200, 1, b"x")).unwrap(), vec![]);
    assert_eq!(primary.op_num(), 2);
}

#[test]
fn cached_reply_is_sent_without_executing_again() {
    let mut cluster = Cluster::new(4, 1);
    cluster.send(To::Replica(0), &request(7, 1, b"x"));
    cluster.run();
    let backup = &mut cluster.replicas[1];
    let actions = backup.on_request(request(7, 1, b"x")).unwrap();
    assert_eq!(
        actions,
        vec![ReplicaAction::SendReply(
            CLIENT_ADDR,
            Reply { seq: 1, result: Payload(vec![1, b'x']), view_num: 0, replica_id: 1 }
        )]
    );
    assert_eq!(backup.app().executed, vec![b"x".to_vec()]);
    assert_eq!(backup.commit_num(), 1);
}
