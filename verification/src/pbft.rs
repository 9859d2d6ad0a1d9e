//! Byzantine fault tolerant state machine replication: the three-phase
//! normal case, and the client that waits for matching replies.
use crate::util::{request_views, Payload, Request, RequestView};
use vstd::prelude::*;

pub mod client;
pub mod quorum;
pub mod replica;
pub mod state;

verus! {

/// A 32-byte hash.
#[derive(Debug, Clone, Copy, PartialEq, Eq, Hash)]
pub struct H256(pub [u8; 32]);

impl H256 {
    /// Whether two hashes hold the same bytes.
    pub fn same(&self, other: &H256) -> (r: bool)
        ensures
            r == (*self == *other),
    {
        for i in 0..32usize
            invariant
                forall|j: int| 0 <= j < i ==> self.0@[j] == other.0@[j],
        {
            if self.0[i] != other.0[i] {
                return false;
            }
        }
        assert(self.0 =~= other.0);
        true
    }
}

/// A signature, as the bytes that the signing scheme produced.
#[derive(Debug, Clone, Copy, PartialEq, Eq, Hash)]
pub struct Signature(pub [u8; 64]);

/// A message together with a signature over it.
#[derive(Debug, PartialEq, Eq, Hash)]
pub struct Verifiable<M> {
    pub inner: M,
    pub signature: Signature,
}

impl<M: Copy> Clone for Verifiable<M> {
    fn clone(&self) -> (r: Self)
        ensures
            r == *self,
    {
        *self
    }
}

impl<M: Copy> Copy for Verifiable<M> {

}

/// The primary's proposal to order a batch of requests at `op_num`.
#[derive(Debug, Clone, Copy, PartialEq, Eq, Hash)]
pub struct PrePrepare {
    pub view_num: u32,
    pub op_num: u32,
    pub digest: H256,
}

/// Whether a proposal is to be taken for verified: the hash of its batch is
/// its digest, and the primary of its view has signed it. Whoever verifies a
/// proposal computes the hash and checks the signature, and drops the
/// proposal unless this holds.
pub fn proposal_verified(
    pre_prepare: &Verifiable<PrePrepare>,
    batch_digest: &H256,
    signed_by_primary: bool,
) -> (r: bool)
    ensures
        r == (*batch_digest == pre_prepare.inner.digest && signed_by_primary),
{
    batch_digest.same(&pre_prepare.inner.digest) && signed_by_primary
}

/// A replica's statement that it accepts the proposal for `op_num`.
#[derive(Debug, Clone, Copy, PartialEq, Eq, Hash)]
pub struct Prepare {
    pub view_num: u32,
    pub op_num: u32,
    pub digest: H256,
    pub replica_id: u8,
}

/// A replica's statement that the proposal for `op_num` is prepared.
#[derive(Debug, Clone, Copy, PartialEq, Eq, Hash)]
pub struct Commit {
    pub view_num: u32,
    pub op_num: u32,
    pub digest: H256,
    pub replica_id: u8,
}

/// What a replica answers to a request once it has executed it.
#[derive(Debug, PartialEq, Eq, Hash)]
pub struct Reply {
    pub seq: u32,
    pub result: Payload,
    pub view_num: u32,
    pub replica_id: u8,
}

/// A reply as a plain value.
pub ghost struct ReplyView {
    pub seq: u32,
    pub result: Seq<u8>,
    pub view_num: u32,
    pub replica_id: u8,
}

impl View for Reply {
    type V = ReplyView;

    open spec fn view(&self) -> ReplyView {
        ReplyView {
            seq: self.seq,
            result: self.result@,
            view_num: self.view_num,
            replica_id: self.replica_id,
        }
    }
}

impl Clone for Reply {
    fn clone(&self) -> (r: Self)
        ensures
            r@ == self@,
    {
        Reply {
            seq: self.seq,
            result: self.result.clone(),
            view_num: self.view_num,
            replica_id: self.replica_id,
        }
    }
}

/// Why a component gave up. Every one of these is fatal to its session.
#[derive(Debug, Clone, Copy, PartialEq, Eq, Structural)]
pub enum Error {
    /// The event asks for forwarding to the primary or for a change of view,
    /// which this protocol does not do.
    Unimplemented,
    /// A log position that was already filled would have been filled again.
    DuplicateLogInsertion,
    /// A signed vote arrived for a log position that does not exist.
    MissingLogEntry,
    /// The numbers for log positions or requests have run out.
    Exhausted,
    /// The application failed to execute an operation.
    App,
    /// An invocation was started while another one was under way.
    ConcurrentInvocation,
}

/// The application could not execute an operation.
#[derive(Debug, Clone, Copy, PartialEq, Eq, Structural)]
pub struct AppError;

/// What the application returned, as a plain value.
pub open spec fn outcome(result: Result<Vec<u8>, AppError>) -> Result<Seq<u8>, AppError> {
    match result {
        Ok(bytes) => Ok(bytes@),
        Err(error) => Err(error),
    }
}

/// The replicated application. What it returns, and whether it fails, is its
/// own business: the replica hands it the operations in the order of the
/// log, and passes on whatever comes back.
pub trait App: Sized {
    /// What `execute` may do: the application before and after, the
    /// operation, and what comes back. An application that says nothing of
    /// itself may do anything.
    open spec fn executed(
        before: Self,
        op: Seq<u8>,
        after: Self,
        result: Result<Seq<u8>, AppError>,
    ) -> bool {
        true
    }

    fn execute(&mut self, op: &[u8]) -> (result: Result<Vec<u8>, AppError>)
        ensures
            Self::executed(*old(self), op@, *final(self), outcome(result)),
    ;
}

/// What a replica wants done after it has handled an event.
#[derive(Debug, PartialEq, Eq)]
pub enum ReplicaAction<A> {
    /// Send the reply to the client at this address.
    SendReply(A, Reply),
    /// Send the proposal and its batch to every other replica.
    BroadcastPrePrepare(Verifiable<PrePrepare>, Vec<Request<A>>),
    /// Send the vote to every other replica.
    BroadcastPrepare(Verifiable<Prepare>),
    /// Send the vote to every other replica.
    BroadcastCommit(Verifiable<Commit>),
    /// Hash the batch, sign a proposal for it, and hand both back as signed.
    SignPrePrepare { view_num: u32, op_num: u32, requests: Vec<Request<A>> },
    /// Check that the proposal's digest is the hash of the batch and that
    /// replica `replica_id` signed it; hand both back as verified if so.
    VerifyPrePrepare {
        replica_id: usize,
        pre_prepare: Verifiable<PrePrepare>,
        requests: Vec<Request<A>>,
    },
    /// Sign the vote and hand it back as signed.
    SignPrepare(Prepare),
    /// Check that the vote's sender signed it; hand it back as verified if so.
    VerifyPrepare(Verifiable<Prepare>),
    /// Sign the vote and hand it back as signed.
    SignCommit(Commit),
    /// Check that the vote's sender signed it; hand it back as verified if so.
    VerifyCommit(Verifiable<Commit>),
}

/// A replica's action as a plain value.
pub ghost enum ReplicaActionView<A> {
    SendReply(A, ReplyView),
    BroadcastPrePrepare(Verifiable<PrePrepare>, Seq<RequestView<A>>),
    BroadcastPrepare(Verifiable<Prepare>),
    BroadcastCommit(Verifiable<Commit>),
    SignPrePrepare { view_num: u32, op_num: u32, requests: Seq<RequestView<A>> },
    VerifyPrePrepare {
        replica_id: usize,
        pre_prepare: Verifiable<PrePrepare>,
        requests: Seq<RequestView<A>>,
    },
    SignPrepare(Prepare),
    VerifyPrepare(Verifiable<Prepare>),
    SignCommit(Commit),
    VerifyCommit(Verifiable<Commit>),
}

impl<A> View for ReplicaAction<A> {
    type V = ReplicaActionView<A>;

    open spec fn view(&self) -> ReplicaActionView<A> {
        match *self {
            ReplicaAction::SendReply(addr, reply) => ReplicaActionView::SendReply(addr, reply@),
            ReplicaAction::BroadcastPrePrepare(pre_prepare, requests) => {
                ReplicaActionView::BroadcastPrePrepare(pre_prepare, request_views(requests@))
            },
            ReplicaAction::BroadcastPrepare(prepare) => ReplicaActionView::BroadcastPrepare(
                prepare,
            ),
            ReplicaAction::BroadcastCommit(commit) => ReplicaActionView::BroadcastCommit(commit),
            ReplicaAction::SignPrePrepare { view_num, op_num, requests } => {
                ReplicaActionView::SignPrePrepare {
                    view_num,
                    op_num,
                    requests: request_views(requests@),
                }
            },
            ReplicaAction::VerifyPrePrepare { replica_id, pre_prepare, requests } => {
                ReplicaActionView::VerifyPrePrepare {
                    replica_id,
                    pre_prepare,
                    requests: request_views(requests@),
                }
            },
            ReplicaAction::SignPrepare(prepare) => ReplicaActionView::SignPrepare(prepare),
            ReplicaAction::VerifyPrepare(prepare) => ReplicaActionView::VerifyPrepare(prepare),
            ReplicaAction::SignCommit(commit) => ReplicaActionView::SignCommit(commit),
            ReplicaAction::VerifyCommit(commit) => ReplicaActionView::VerifyCommit(commit),
        }
    }
}

/// What a replica receives, from a client or from another replica.
#[derive(Debug, PartialEq, Eq)]
pub enum ToReplica<A> {
    Request(Request<A>),
    PrePrepare(Verifiable<PrePrepare>, Vec<Request<A>>),
    Prepare(Verifiable<Prepare>),
    Commit(Verifiable<Commit>),
}

/// Hands a reply to the client.
pub fn to_client_on_buf<A: Copy>(reply: Reply, client: &mut client::Client<A>) -> (actions: Vec<
    client::ClientAction<A>,
>)
    requires
        old(client)@.wf(),
    ensures
        final(client)@ == old(client)@.on_reply(reply@).0,
        client::client_action_views(actions@) == old(client)@.on_reply(reply@).1,
        final(client)@.wf(),
{
    client.on_reply(reply)
}

/// Hands a message for a replica to the replica.
pub fn to_replica_on_buf<S: App, A: Copy>(
    message: ToReplica<A>,
    replica: &mut replica::Replica<S, A>,
) -> (r: Result<Vec<ReplicaAction<A>>, Error>)
    requires
        old(replica)@.wf(),
    ensures
        match (match message {
            ToReplica::Request(request) => old(replica)@.on_request(request@),
            ToReplica::PrePrepare(pre_prepare, requests) => old(replica)@.on_pre_prepare(
                pre_prepare,
                request_views(requests@),
            ),
            ToReplica::Prepare(prepare) => old(replica)@.on_prepare(prepare),
            ToReplica::Commit(commit) => old(replica)@.on_commit(commit),
        }) {
            Ok((state, actions)) => r is Ok && final(replica)@ == state && replica_action_views(
                r->Ok_0@,
            ) == actions && state.wf(),
            Err(error) => r == Err::<Vec<ReplicaAction<A>>, Error>(error),
        },
        final(replica)@.wf(),
        final(replica).application() == old(replica).application(),
{
    match message {
        ToReplica::Request(request) => replica.on_request(request),
        ToReplica::PrePrepare(pre_prepare, requests) => replica.on_pre_prepare(
            pre_prepare,
            requests,
        ),
        ToReplica::Prepare(prepare) => replica.on_prepare(prepare),
        ToReplica::Commit(commit) => replica.on_commit(commit),
    }
}

/// The views of a sequence of actions.
pub open spec fn replica_action_views<A>(actions: Seq<ReplicaAction<A>>) -> Seq<
    ReplicaActionView<A>,
> {
    actions.map_values(|a: ReplicaAction<A>| a@)
}

} // verus!
