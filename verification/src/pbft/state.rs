//! The replica as a plain value: what it holds, what every event comes to,
//! and what holds of every state that it can get into.
use crate::pbft::quorum::{
    after_next, in_replica_order, lemma_quorums_intersect, lemma_voters_len, next_vote, on_digest,
    replicas, voters, votes_at, votes_for, votes_in_order, Vote,
};
use crate::pbft::{
    App, AppError, Commit, Error, PrePrepare, Prepare, ReplicaActionView, ReplyView, Verifiable,
    H256,
};
use crate::util::RequestView;
use vstd::prelude::*;

verus! {

/// How many requests a batch holds at most.
pub const MAX_BATCH: usize = 100;

/// How many log positions the primary keeps open beyond the last executed
/// one.
pub const NUM_CONCURRENT_PRE_PREPARE: u32 = 1;

/// A log entry as a plain value.
pub ghost struct LogEntryView<A> {
    pub view_num: u32,
    pub pre_prepare: Option<Verifiable<PrePrepare>>,
    pub requests: Seq<RequestView<A>>,
    pub prepares: Seq<(u8, Verifiable<Prepare>)>,
    pub commits: Seq<(u8, Verifiable<Commit>)>,
}

impl<A> LogEntryView<A> {
    /// The entry of a position that nothing is known about.
    pub open spec fn empty() -> Self {
        LogEntryView {
            view_num: 0,
            pre_prepare: None,
            requests: Seq::empty(),
            prepares: Seq::empty(),
            commits: Seq::empty(),
        }
    }

    /// Whether a quorum of prepares has been recorded for the position.
    pub open spec fn prepared(self) -> bool {
        self.prepares.len() > 0
    }

    /// Whether a quorum of commits has been recorded for the position.
    pub open spec fn committed(self) -> bool {
        self.commits.len() > 0
    }
}

/// The state of a replica as a plain value.
pub ghost struct ReplicaState<A> {
    pub id: u8,
    pub num_replica: usize,
    pub num_faulty: usize,
    pub replies: Map<u32, (u32, Option<ReplyView>)>,
    pub requests: Seq<RequestView<A>>,
    pub view_num: u32,
    pub op_num: u32,
    pub log: Seq<LogEntryView<A>>,
    pub prepare_quorums: Map<u32, Map<u8, Verifiable<Prepare>>>,
    pub commit_quorums: Map<u32, Map<u8, Verifiable<Commit>>>,
    pub commit_num: u32,
    pub pending_prepares: Map<u32, Seq<Verifiable<Prepare>>>,
    pub pending_commits: Map<u32, Seq<Verifiable<Commit>>>,
}

/// What handling one event comes to: the state afterwards and the actions to
/// take, or the error that ends the session.
pub type Step<A> = Result<(ReplicaState<A>, Seq<ReplicaActionView<A>>), Error>;

impl<A> ReplicaState<A> {
    /// What `Replica::new` promises and every handler keeps. Among it: no
    /// position of the log is prepared or committed without a proposal and a
    /// quorum for its digest, and no vote for another digest waits at a
    /// position with a proposal.
    pub open spec fn wf(self) -> bool {
        &&& 0 < self.num_replica
        &&& self.num_faulty <= self.num_replica
        &&& self.log.len() <= 0x1_0000_0000
        &&& forall|op_num: int|
            0 <= op_num < self.log.len() ==> self.certified(#[trigger] self.log[op_num])
        &&& self.waiting_match(self.prepare_quorums)
        &&& self.waiting_match(self.commit_quorums)
    }

    /// Whether `entry` has what it needs for what it says. A prepared
    /// position holds a proposal and, with the proposal for the primary's
    /// vote, the prepares of a quorum. A committed position is prepared and
    /// holds the commits of a quorum. Every vote is for the digest of the
    /// proposal, and no replica has two votes among them.
    pub open spec fn certified(self, entry: LogEntryView<A>) -> bool {
        &&& entry.prepared() ==> entry.pre_prepare is Some && entry.prepares.len() + 1
            >= self.quorum() && on_digest(entry.prepares, entry.pre_prepare->Some_0.inner.digest)
        &&& entry.committed() ==> entry.prepared() && entry.commits.len() >= self.quorum()
            && on_digest(entry.commits, entry.pre_prepare->Some_0.inner.digest)
        &&& in_replica_order(entry.prepares)
        &&& in_replica_order(entry.commits)
    }

    /// The digest of the proposal that the log holds for `op_num`.
    pub open spec fn proposed(self, op_num: u32) -> H256
        recommends
            self.has_pre_prepare(op_num),
    {
        self.log[op_num as int].pre_prepare->Some_0.inner.digest
    }

    /// Whether a vote for `digest` at `op_num` is against the proposal that
    /// the log holds for the position.
    pub open spec fn contradicts(self, op_num: u32, digest: H256) -> bool {
        self.has_pre_prepare(op_num) && self.proposed(op_num) != digest
    }

    /// Whether every vote of `quorums` that waits at a position with a
    /// proposal is for the digest of the proposal.
    pub open spec fn waiting_match<M: Vote>(
        self,
        quorums: Map<u32, Map<u8, Verifiable<M>>>,
    ) -> bool {
        forall|op_num: u32, id: u8|
            self.has_pre_prepare(op_num) && quorums.contains_key(op_num)
                && #[trigger] quorums[op_num].contains_key(id)
                ==> quorums[op_num][id].inner.vote_digest() == self.proposed(op_num)
    }

    /// How many votes make a quorum.
    pub open spec fn quorum(self) -> int {
        self.num_replica - self.num_faulty
    }

    /// Whether this replica leads the current view.
    pub open spec fn is_primary(self) -> bool {
        self.view_num as int % self.num_replica as int == self.id as int
    }

    /// The state after the primary has closed a batch, and the batch.
    pub open spec fn close_batch(self) -> (Self, ReplicaActionView<A>)
        recommends
            self.requests.len() > 0,
            self.op_num < u32::MAX,
    {
        let size = if self.requests.len() <= MAX_BATCH {
            self.requests.len() as int
        } else {
            MAX_BATCH as int
        };
        let op_num = (self.op_num + 1) as u32;
        (
            ReplicaState { op_num, requests: self.requests.skip(size), ..self },
            ReplicaActionView::SignPrePrepare {
                view_num: self.view_num,
                op_num,
                requests: self.requests.take(size),
            },
        )
    }

    /// What a request from a client comes to.
    pub open spec fn on_request(self, request: RequestView<A>) -> Step<A> {
        let known = self.replies.contains_key(request.client_id);
        if known && self.replies[request.client_id].0 > request.seq {
            Ok((self, Seq::empty()))
        } else if known && self.replies[request.client_id].0 == request.seq {
            match self.replies[request.client_id].1 {
                Some(reply) => Ok(
                    (self, seq![ReplicaActionView::SendReply(request.client_addr, reply)]),
                ),
                None => Ok((self, Seq::empty())),
            }
        } else if !self.is_primary() {
            Err(Error::Unimplemented)
        } else {
            let queued = ReplicaState {
                replies: self.replies.insert(request.client_id, (request.seq, None)),
                requests: self.requests.push(request),
                ..self
            };
            if queued.op_num >= queued.commit_num + NUM_CONCURRENT_PRE_PREPARE {
                Ok((queued, Seq::empty()))
            } else if queued.op_num == u32::MAX {
                Err(Error::Exhausted)
            } else {
                Ok((queued.close_batch().0, seq![queued.close_batch().1]))
            }
        }
    }
}

/// `quorums` without the votes for `op_num` that are not for `digest`.
pub open spec fn purged<M: Vote>(
    quorums: Map<u32, Map<u8, Verifiable<M>>>,
    op_num: u32,
    digest: H256,
) -> Map<u32, Map<u8, Verifiable<M>>> {
    if quorums.contains_key(op_num) {
        quorums.insert(op_num, votes_for(quorums[op_num], digest))
    } else {
        quorums
    }
}

/// `log` made long enough to hold position `op_num`.
pub open spec fn extended<A>(log: Seq<LogEntryView<A>>, op_num: u32) -> Seq<LogEntryView<A>> {
    if op_num < log.len() {
        log
    } else {
        log + Seq::new((op_num + 1 - log.len()) as nat, |i: int| LogEntryView::<A>::empty())
    }
}

impl<A> ReplicaState<A> {
    /// The state with `pre_prepare` and its batch recorded at its position.
    /// The votes that have arrived for the position before stay as far as
    /// they are for the digest of the proposal; the others are dropped.
    pub open spec fn record(
        self,
        pre_prepare: Verifiable<PrePrepare>,
        requests: Seq<RequestView<A>>,
    ) -> Self {
        let op_num = pre_prepare.inner.op_num;
        let digest = pre_prepare.inner.digest;
        let log = extended(self.log, op_num);
        ReplicaState {
            log: log.update(
                op_num as int,
                LogEntryView {
                    view_num: self.view_num,
                    pre_prepare: Some(pre_prepare),
                    requests,
                    ..log[op_num as int]
                },
            ),
            prepare_quorums: purged(self.prepare_quorums, op_num, digest),
            commit_quorums: purged(self.commit_quorums, op_num, digest),
            ..self
        }
    }

    /// Whether the log holds a proposal for `op_num`.
    pub open spec fn has_pre_prepare(self, op_num: u32) -> bool {
        op_num < self.log.len() && self.log[op_num as int].pre_prepare is Some
    }

    /// What the proposal that this replica has made, now signed, comes to.
    pub open spec fn on_signed_pre_prepare(
        self,
        pre_prepare: Verifiable<PrePrepare>,
        requests: Seq<RequestView<A>>,
    ) -> Step<A> {
        if pre_prepare.inner.view_num != self.view_num {
            Ok((self, Seq::empty()))
        } else if pre_prepare.inner.op_num >= usize::MAX {
            Err(Error::Exhausted)
        } else if self.has_pre_prepare(pre_prepare.inner.op_num) {
            Err(Error::DuplicateLogInsertion)
        } else {
            Ok(
                (
                    self.record(pre_prepare, requests),
                    seq![ReplicaActionView::BroadcastPrePrepare(pre_prepare, requests)],
                ),
            )
        }
    }

    /// What a proposal from another replica comes to.
    pub open spec fn on_pre_prepare(
        self,
        pre_prepare: Verifiable<PrePrepare>,
        requests: Seq<RequestView<A>>,
    ) -> Step<A> {
        if pre_prepare.inner.view_num > self.view_num {
            Err(Error::Unimplemented)
        } else if pre_prepare.inner.view_num < self.view_num || self.has_pre_prepare(
            pre_prepare.inner.op_num,
        ) {
            Ok((self, Seq::empty()))
        } else {
            Ok(
                (
                    self,
                    seq![
                        ReplicaActionView::VerifyPrePrepare {
                            replica_id: (pre_prepare.inner.view_num as int
                                % self.num_replica as int) as usize,
                            pre_prepare,
                            requests,
                        },
                    ],
                ),
            )
        }
    }

    /// What a proposal from another replica comes to once it is verified.
    pub open spec fn on_verified_pre_prepare(
        self,
        pre_prepare: Verifiable<PrePrepare>,
        requests: Seq<RequestView<A>>,
    ) -> Step<A> {
        let op_num = pre_prepare.inner.op_num;
        let digest = pre_prepare.inner.digest;
        if pre_prepare.inner.view_num != self.view_num || self.has_pre_prepare(op_num) {
            Ok((self, Seq::empty()))
        } else if op_num >= usize::MAX {
            Err(Error::Exhausted)
        } else {
            Ok(
                (
                    self.record(pre_prepare, requests),
                    seq![
                        ReplicaActionView::SignPrepare(
                            Prepare {
                                view_num: self.view_num,
                                op_num,
                                digest,
                                replica_id: self.id,
                            },
                        ),
                    ],
                ),
            )
        }
    }
}

impl<A> ReplicaState<A> {
    /// Whether a prepare that has just arrived is worth verifying.
    pub open spec fn submit_prepare(self, prepare: Verifiable<Prepare>) -> Result<bool, Error> {
        let op_num = prepare.inner.op_num;
        if prepare.inner.view_num > self.view_num {
            Err(Error::Unimplemented)
        } else if prepare.inner.view_num < self.view_num {
            Ok(false)
        } else if op_num < self.log.len() && (self.log[op_num as int].prepared() || (
        self.log[op_num as int].pre_prepare matches Some(pre_prepare)
            && pre_prepare.inner.digest != prepare.inner.digest)) {
            Ok(false)
        } else {
            Ok(true)
        }
    }

    /// What counting a verified prepare comes to. A vote against the
    /// proposal that the log holds is dropped. A vote for a position without
    /// a proposal waits for it. The position becomes prepared when it has a
    /// proposal and, with this vote, all but one of a quorum have voted for
    /// its digest: the proposal itself stands for the primary's vote.
    pub open spec fn insert_prepare(self, prepare: Verifiable<Prepare>) -> Step<A> {
        let op_num = prepare.inner.op_num;
        let votes = votes_at(self.prepare_quorums, op_num).insert(
            prepare.inner.replica_id,
            prepare,
        );
        if self.contradicts(op_num, prepare.inner.digest) {
            Ok((self, Seq::empty()))
        } else if votes.len() + 1 < self.quorum() || !self.has_pre_prepare(op_num) {
            Ok(
                (
                    ReplicaState {
                        prepare_quorums: self.prepare_quorums.insert(op_num, votes),
                        ..self
                    },
                    Seq::empty(),
                ),
            )
        } else if self.log[op_num as int].prepared() {
            Err(Error::DuplicateLogInsertion)
        } else {
            Ok(
                (
                    ReplicaState {
                        prepare_quorums: self.prepare_quorums.remove(op_num),
                        log: self.log.update(
                            op_num as int,
                            LogEntryView {
                                prepares: votes_in_order(votes),
                                ..self.log[op_num as int]
                            },
                        ),
                        ..self
                    },
                    seq![
                        ReplicaActionView::SignCommit(
                            Commit {
                                view_num: self.view_num,
                                op_num,
                                digest: prepare.inner.digest,
                                replica_id: self.id,
                            },
                        ),
                    ],
                ),
            )
        }
    }

    /// What this replica's own prepare, now signed, comes to.
    pub open spec fn on_signed_prepare(self, prepare: Verifiable<Prepare>) -> Step<A> {
        let op_num = prepare.inner.op_num;
        if prepare.inner.view_num != self.view_num {
            Ok((self, Seq::empty()))
        } else if op_num >= self.log.len() {
            Err(Error::MissingLogEntry)
        } else if self.log[op_num as int].prepared() {
            Ok((self, seq![ReplicaActionView::BroadcastPrepare(prepare)]))
        } else {
            match self.insert_prepare(prepare) {
                Ok((state, actions)) => Ok(
                    (state, seq![ReplicaActionView::BroadcastPrepare(prepare)] + actions),
                ),
                Err(error) => Err(error),
            }
        }
    }

    /// What a prepare from another replica comes to: it waits where a vote
    /// for the same position is being verified, and is verified otherwise,
    /// if it is worth it.
    pub open spec fn on_prepare(self, prepare: Verifiable<Prepare>) -> Step<A> {
        let op_num = prepare.inner.op_num;
        if self.pending_prepares.contains_key(op_num) {
            Ok(
                (
                    ReplicaState {
                        pending_prepares: self.pending_prepares.insert(
                            op_num,
                            self.pending_prepares[op_num].push(prepare),
                        ),
                        ..self
                    },
                    Seq::empty(),
                ),
            )
        } else {
            match self.submit_prepare(prepare) {
                Ok(true) => Ok(
                    (
                        ReplicaState {
                            pending_prepares: self.pending_prepares.insert(op_num, Seq::empty()),
                            ..self
                        },
                        seq![ReplicaActionView::VerifyPrepare(prepare)],
                    ),
                ),
                Ok(false) => Ok((self, Seq::empty())),
                Err(error) => Err(error),
            }
        }
    }

    /// How many prepares wait for `op_num`.
    pub open spec fn waiting_prepares(self, op_num: u32) -> nat {
        if self.pending_prepares.contains_key(op_num) {
            self.pending_prepares[op_num].len()
        } else {
            0
        }
    }

    /// What looking for the next prepare to verify for `op_num` comes to:
    /// the waiting votes are taken latest first, and the first one that is
    /// worth verifying is.
    pub open spec fn drain_prepares(self, op_num: u32) -> Step<A>
        decreases self.waiting_prepares(op_num),
    {
        let rest = ReplicaState {
            pending_prepares: after_next(self.pending_prepares, op_num),
            ..self
        };
        match next_vote(self.pending_prepares, op_num) {
            None => Ok((rest, Seq::empty())),
            Some(prepare) => match rest.submit_prepare(prepare) {
                Ok(true) => Ok((rest, seq![ReplicaActionView::VerifyPrepare(prepare)])),
                Ok(false) => rest.drain_prepares(op_num),
                Err(error) => Err(error),
            },
        }
    }

    /// What a verified prepare comes to.
    pub open spec fn on_verified_prepare(self, prepare: Verifiable<Prepare>) -> Step<A> {
        if prepare.inner.view_num != self.view_num {
            Ok((self, Seq::empty()))
        } else {
            match self.insert_prepare(prepare) {
                Ok((counted, first)) => match counted.drain_prepares(prepare.inner.op_num) {
                    Ok((state, second)) => Ok((state, first + second)),
                    Err(error) => Err(error),
                },
                Err(error) => Err(error),
            }
        }
    }
}

/// The last log position that can be executed after `from`: every position
/// from `from + 1` up to it is committed.
pub open spec fn committed_upto<A>(log: Seq<LogEntryView<A>>, from: int) -> int
    decreases log.len() - from,
{
    if 0 <= from && from + 1 < log.len() && log[from + 1].committed() {
        committed_upto(log, from + 1)
    } else {
        from
    }
}

/// The requests of the log positions after `from` up to `to`, in order.
pub open spec fn requests_between<A>(log: Seq<LogEntryView<A>>, from: int, to: int) -> Seq<
    RequestView<A>,
>
    decreases to - from,
{
    if to <= from {
        Seq::empty()
    } else {
        requests_between(log, from, to - 1) + log[to].requests
    }
}

/// The reply to `request` when the application returned `result`.
pub open spec fn reply_to<A>(request: RequestView<A>, result: Seq<u8>, view_num: u32, id: u8)
    -> ReplyView {
    ReplyView { seq: request.seq, result, view_num, replica_id: id }
}

/// What a replica remembers of its clients after it has replied to
/// `request`: the reply, unless the client has already sent a later request.
pub open spec fn remember<A>(
    replies: Map<u32, (u32, Option<ReplyView>)>,
    request: RequestView<A>,
    reply: ReplyView,
) -> Map<u32, (u32, Option<ReplyView>)> {
    if replies.contains_key(request.client_id) && replies[request.client_id].0 > request.seq {
        replies
    } else {
        replies.insert(request.client_id, (request.seq, Some(reply)))
    }
}

/// What a replica remembers of its clients after it has executed `requests`
/// in order and the application returned `results`.
pub open spec fn replied<A>(
    replies: Map<u32, (u32, Option<ReplyView>)>,
    requests: Seq<RequestView<A>>,
    results: Seq<Seq<u8>>,
    view_num: u32,
    id: u8,
) -> Map<u32, (u32, Option<ReplyView>)>
    decreases requests.len(),
{
    if requests.len() == 0 {
        replies
    } else {
        remember(
            replied(replies, requests.drop_last(), results.drop_last(), view_num, id),
            requests.last(),
            reply_to(requests.last(), results.last(), view_num, id),
        )
    }
}

/// The replies to `requests`, one each and in order, when the application
/// returned `results`.
pub open spec fn reply_actions<A>(
    requests: Seq<RequestView<A>>,
    results: Seq<Seq<u8>>,
    view_num: u32,
    id: u8,
) -> Seq<ReplicaActionView<A>> {
    Seq::new(
        requests.len(),
        |i: int|
            ReplicaActionView::SendReply(
                requests[i].client_addr,
                reply_to(requests[i], results[i], view_num, id),
            ),
    )
}

impl<A> ReplicaState<A> {
    /// Whether a commit that has just arrived is worth verifying.
    pub open spec fn submit_commit(self, commit: Verifiable<Commit>) -> Result<bool, Error> {
        let op_num = commit.inner.op_num;
        if commit.inner.view_num > self.view_num {
            Err(Error::Unimplemented)
        } else if commit.inner.view_num < self.view_num {
            Ok(false)
        } else if op_num < self.log.len() && (self.log[op_num as int].committed() || (
        self.log[op_num as int].pre_prepare matches Some(pre_prepare)
            && pre_prepare.inner.digest != commit.inner.digest)) {
            Ok(false)
        } else {
            Ok(true)
        }
    }

    /// The votes for the position of `commit` once it is counted.
    pub open spec fn commits_with(self, commit: Verifiable<Commit>) -> Map<u8, Verifiable<Commit>> {
        votes_at(self.commit_quorums, commit.inner.op_num).insert(commit.inner.replica_id, commit)
    }

    /// Whether counting `commit` makes its position committed: the log holds
    /// a proposal for the position, the vote is for its digest, a quorum has
    /// voted, and the position is prepared.
    pub open spec fn commits_position(self, commit: Verifiable<Commit>) -> bool {
        let op_num = commit.inner.op_num;
        &&& self.has_pre_prepare(op_num)
        &&& !self.contradicts(op_num, commit.inner.digest)
        &&& self.commits_with(commit).len() >= self.quorum()
        &&& self.log[op_num as int].prepared()
    }

    /// The state once `commit` is counted, before anything is executed. A
    /// vote against the proposal that the log holds is not counted.
    pub open spec fn count_commit(self, commit: Verifiable<Commit>) -> Self {
        let op_num = commit.inner.op_num;
        if self.contradicts(op_num, commit.inner.digest) {
            self
        } else if self.commits_position(commit) {
            ReplicaState {
                commit_quorums: self.commit_quorums.remove(op_num),
                log: self.log.update(
                    op_num as int,
                    LogEntryView {
                        commits: votes_in_order(self.commits_with(commit)),
                        ..self.log[op_num as int]
                    },
                ),
                ..self
            }
        } else {
            ReplicaState {
                commit_quorums: self.commit_quorums.insert(op_num, self.commits_with(commit)),
                ..self
            }
        }
    }

    /// The requests to execute next: those of the committed positions that
    /// follow the last executed one without a gap.
    pub open spec fn executable(self) -> Seq<RequestView<A>> {
        requests_between(
            self.log,
            self.commit_num as int,
            committed_upto(self.log, self.commit_num as int),
        )
    }

    /// The state after the executable requests have been executed and the
    /// application returned `results`, and the replies to the clients.
    pub open spec fn execute(self, results: Seq<Seq<u8>>) -> (Self, Seq<ReplicaActionView<A>>)
        recommends
            results.len() == self.executable().len(),
    {
        (
            ReplicaState {
                commit_num: committed_upto(self.log, self.commit_num as int) as u32,
                replies: replied(self.replies, self.executable(), results, self.view_num, self.id),
                ..self
            },
            reply_actions(self.executable(), results, self.view_num, self.id),
        )
    }

    /// How many more batches `close_batches` may close at most.
    pub open spec fn batch_room(self) -> int {
        self.commit_num + NUM_CONCURRENT_PRE_PREPARE - self.op_num
    }

    /// What closing batches comes to: the primary closes one while requests
    /// wait and fewer than `NUM_CONCURRENT_PRE_PREPARE` positions are ahead
    /// of the last executed one.
    pub open spec fn close_batches(self) -> Step<A>
        decreases self.batch_room(),
    {
        if self.is_primary() && self.requests.len() > 0 && self.op_num < self.commit_num
            + NUM_CONCURRENT_PRE_PREPARE {
            if self.op_num == u32::MAX {
                Err(Error::Exhausted)
            } else {
                match self.close_batch().0.close_batches() {
                    Ok((state, actions)) => Ok((state, seq![self.close_batch().1] + actions)),
                    Err(error) => Err(error),
                }
            }
        } else {
            Ok((self, Seq::empty()))
        }
    }

    /// The requests that counting `commit` gets executed.
    pub open spec fn executes(self, commit: Verifiable<Commit>) -> Seq<RequestView<A>> {
        if self.commits_position(commit) && !self.log[commit.inner.op_num as int].committed() {
            self.count_commit(commit).executable()
        } else {
            Seq::empty()
        }
    }

    /// The requests that a signed or verified `commit` gets executed.
    pub open spec fn executes_in_view(self, commit: Verifiable<Commit>) -> Seq<RequestView<A>> {
        if commit.inner.view_num == self.view_num {
            self.executes(commit)
        } else {
            Seq::empty()
        }
    }

    /// What counting a verified commit comes to, when the application
    /// returns `results` for the requests that it gets executed. A vote
    /// against the proposal that the log holds is dropped. A vote for a
    /// position without a proposal, or one that is not prepared, waits. The
    /// position becomes committed when it is prepared and, with this vote, a
    /// quorum has voted for the digest of its proposal.
    pub open spec fn insert_commit(self, commit: Verifiable<Commit>, results: Seq<Seq<u8>>) -> Step<
        A,
    >
        recommends
            results.len() == self.executes(commit).len(),
    {
        let op_num = commit.inner.op_num;
        if self.contradicts(op_num, commit.inner.digest) {
            Ok((self, Seq::empty()))
        } else if self.commits_with(commit).len() < self.quorum() || !self.has_pre_prepare(
            op_num,
        ) {
            Ok((self.count_commit(commit), Seq::empty()))
        } else if self.log[op_num as int].committed() {
            Err(Error::DuplicateLogInsertion)
        } else if !self.log[op_num as int].prepared() {
            Ok((self.count_commit(commit), Seq::empty()))
        } else {
            let (executed, replies) = self.count_commit(commit).execute(results);
            match executed.close_batches() {
                Ok((state, batches)) => Ok((state, replies + batches)),
                Err(error) => Err(error),
            }
        }
    }

    /// What this replica's own commit, now signed, comes to.
    pub open spec fn on_signed_commit(self, commit: Verifiable<Commit>, results: Seq<Seq<u8>>)
        -> Step<A> {
        let op_num = commit.inner.op_num;
        if commit.inner.view_num != self.view_num {
            Ok((self, Seq::empty()))
        } else if op_num >= self.log.len() {
            Err(Error::MissingLogEntry)
        } else if self.log[op_num as int].committed() {
            Ok((self, seq![ReplicaActionView::BroadcastCommit(commit)]))
        } else {
            match self.insert_commit(commit, results) {
                Ok((state, actions)) => Ok(
                    (state, seq![ReplicaActionView::BroadcastCommit(commit)] + actions),
                ),
                Err(error) => Err(error),
            }
        }
    }

    /// What a commit from another replica comes to: it waits where a vote
    /// for the same position is being verified, and is verified otherwise,
    /// if it is worth it.
    pub open spec fn on_commit(self, commit: Verifiable<Commit>) -> Step<A> {
        let op_num = commit.inner.op_num;
        if self.pending_commits.contains_key(op_num) {
            Ok(
                (
                    ReplicaState {
                        pending_commits: self.pending_commits.insert(
                            op_num,
                            self.pending_commits[op_num].push(commit),
                        ),
                        ..self
                    },
                    Seq::empty(),
                ),
            )
        } else {
            match self.submit_commit(commit) {
                Ok(true) => Ok(
                    (
                        ReplicaState {
                            pending_commits: self.pending_commits.insert(op_num, Seq::empty()),
                            ..self
                        },
                        seq![ReplicaActionView::VerifyCommit(commit)],
                    ),
                ),
                Ok(false) => Ok((self, Seq::empty())),
                Err(error) => Err(error),
            }
        }
    }

    /// How many commits wait for `op_num`.
    pub open spec fn waiting_commits(self, op_num: u32) -> nat {
        if self.pending_commits.contains_key(op_num) {
            self.pending_commits[op_num].len()
        } else {
            0
        }
    }

    /// What looking for the next commit to verify for `op_num` comes to: the
    /// waiting votes are taken latest first, and the first one that is worth
    /// verifying is.
    pub open spec fn drain_commits(self, op_num: u32) -> Step<A>
        decreases self.waiting_commits(op_num),
    {
        let rest = ReplicaState {
            pending_commits: after_next(self.pending_commits, op_num),
            ..self
        };
        match next_vote(self.pending_commits, op_num) {
            None => Ok((rest, Seq::empty())),
            Some(commit) => match rest.submit_commit(commit) {
                Ok(true) => Ok((rest, seq![ReplicaActionView::VerifyCommit(commit)])),
                Ok(false) => rest.drain_commits(op_num),
                Err(error) => Err(error),
            },
        }
    }

    /// What a verified commit comes to, when the application returns
    /// `results` for the requests that it gets executed.
    pub open spec fn on_verified_commit(self, commit: Verifiable<Commit>, results: Seq<Seq<u8>>)
        -> Step<A> {
        if commit.inner.view_num != self.view_num {
            Ok((self, Seq::empty()))
        } else {
            match self.insert_commit(commit, results) {
                Ok((counted, first)) => match counted.drain_commits(commit.inner.op_num) {
                    Ok((state, second)) => Ok((state, first + second)),
                    Err(error) => Err(error),
                },
                Err(error) => Err(error),
            }
        }
    }
}

/// A replica never forgets a client, and the sequence number that it
/// remembers for a client never goes down.
pub open spec fn replies_grow(
    before: Map<u32, (u32, Option<ReplyView>)>,
    after: Map<u32, (u32, Option<ReplyView>)>,
) -> bool {
    forall|client_id: u32| #[trigger]
        before.contains_key(client_id) ==> after.contains_key(client_id) && after[client_id].0
            >= before[client_id].0
}

/// What the log holds is never rewritten: it keeps every position, a
/// position keeps its proposal and its batch once it has one, its prepares
/// once it is prepared, and its commits once it is committed. The numbers of
/// the last proposed and of the last executed position never go down.
pub open spec fn log_kept<A>(before: ReplicaState<A>, after: ReplicaState<A>) -> bool {
    &&& before.op_num <= after.op_num
    &&& before.commit_num <= after.commit_num
    &&& before.log.len() <= after.log.len()
    &&& forall|op_num: int|
        0 <= op_num < before.log.len() ==> {
            let was = #[trigger] before.log[op_num];
            let is = after.log[op_num];
            &&& was.pre_prepare is Some ==> is.pre_prepare == was.pre_prepare && is.requests
                == was.requests && is.view_num == was.view_num
            &&& was.prepared() ==> is.prepares == was.prepares
            &&& was.committed() ==> is.commits == was.commits
        }
}

/// A position becomes prepared only with a quorum behind it: the votes that
/// move into the log, and the proposal for the primary's vote.
pub open spec fn prepared_by_quorum<A>(before: ReplicaState<A>, after: ReplicaState<A>) -> bool {
    forall|op_num: int|
        0 <= op_num < after.log.len() && (#[trigger] after.log[op_num]).prepared() && !(op_num
            < before.log.len() && before.log[op_num].prepared())
            ==> after.log[op_num].prepares.len() + 1 >= before.quorum()
}

/// A position becomes committed only with a quorum of commits behind it,
/// and only once it is prepared.
pub open spec fn committed_by_quorum<A>(before: ReplicaState<A>, after: ReplicaState<A>) -> bool {
    forall|op_num: int|
        0 <= op_num < after.log.len() && (#[trigger] after.log[op_num]).committed() && !(op_num
            < before.log.len() && before.log[op_num].committed())
            ==> after.log[op_num].commits.len() >= before.quorum()
            && after.log[op_num].prepared()
}

/// Whether `apps` are the states that the application goes through when it
/// is handed the operations of `requests`, one after the other, and returns
/// `results`: each is what `App::execute` makes of the one before.
pub open spec fn chained<S: App, A>(
    apps: Seq<S>,
    requests: Seq<RequestView<A>>,
    results: Seq<Seq<u8>>,
) -> bool {
    &&& apps.len() == requests.len() + 1
    &&& results.len() == requests.len()
    &&& forall|i: int|
        0 <= i < requests.len() ==> S::executed(
            apps[i],
            requests[i].op,
            apps[i + 1],
            Ok(#[trigger] results[i]),
        )
}

/// Whether the application, handed the operations of `requests` in order
/// and nothing else, has gone from `before` to `after` and returned
/// `results`.
pub open spec fn ran<S: App, A>(
    before: S,
    requests: Seq<RequestView<A>>,
    results: Seq<Seq<u8>>,
    after: S,
) -> bool {
    exists|apps: Seq<S>| #[trigger]
        chained(apps, requests, results) && apps[0] == before && apps.last() == after
}

/// Whether the application, handed the operations of `requests` in order,
/// has executed some of them and failed on the next, which left it as
/// `after`.
pub open spec fn failed<S: App, A>(before: S, requests: Seq<RequestView<A>>, after: S) -> bool {
    exists|apps: Seq<S>, results: Seq<Seq<u8>>|
        results.len() < requests.len() && #[trigger] chained(
            apps,
            requests.take(results.len() as int),
            results,
        ) && apps[0] == before && S::executed(
            apps.last(),
            requests[results.len() as int].op,
            after,
            Err(AppError),
        )
}

/// What a handler that executes requests owes. Where it succeeds, the
/// application has been handed the operations of `executes` in order, and
/// with what it returned the handler did what `step` says. Where it fails
/// for the application, the application has failed on one of them. Where it
/// fails otherwise, `step` says so.
pub open spec fn executed_as<S: App, A>(
    r: Result<Seq<ReplicaActionView<A>>, Error>,
    before: S,
    after: S,
    state: ReplicaState<A>,
    executes: Seq<RequestView<A>>,
    step: spec_fn(Seq<Seq<u8>>) -> Step<A>,
) -> bool {
    match r {
        Ok(actions) => exists|results: Seq<Seq<u8>>|
            ran(before, executes, results, after) && #[trigger] step(results) == Ok::<
                (ReplicaState<A>, Seq<ReplicaActionView<A>>),
                Error,
            >((state, actions)),
        Err(error) => if error == Error::App {
            failed(before, executes, after)
        } else {
            exists|results: Seq<Seq<u8>>|
                ran(before, executes, results, after) && #[trigger] step(results) == Err::<
                    (ReplicaState<A>, Seq<ReplicaActionView<A>>),
                    Error,
                >(error)
        },
    }
}

/// The application that is handed nothing stays as it is.
pub proof fn lemma_ran_nothing<S: App, A>(app: S)
    ensures
        ran::<S, A>(app, Seq::empty(), Seq::empty(), app),
{
    let apps = seq![app];
    assert(chained::<S, A>(apps, Seq::empty(), Seq::empty()));
}

/// The application that was handed nothing is as it was.
pub proof fn lemma_ran_nothing_is_unchanged<S: App, A>(
    before: S,
    requests: Seq<RequestView<A>>,
    results: Seq<Seq<u8>>,
    after: S,
)
    requires
        ran(before, requests, results, after),
        requests.len() == 0,
    ensures
        after == before,
        results =~= Seq::empty(),
{
}

/// The last executable position is at or after the one to start from.
pub proof fn lemma_committed_upto_bounds<A>(log: Seq<LogEntryView<A>>, from: int)
    ensures
        from <= committed_upto(log, from),
        committed_upto(log, from) == from || committed_upto(log, from) < log.len(),
    decreases log.len() - from,
{
    if 0 <= from && from + 1 < log.len() && log[from + 1].committed() {
        lemma_committed_upto_bounds(log, from + 1);
    }
}

/// Going further down the log yields the same requests and then more.
pub proof fn lemma_requests_between_grows<A>(
    log: Seq<LogEntryView<A>>,
    from: int,
    to: int,
    further: int,
)
    requires
        to <= further,
    ensures
        requests_between(log, from, to).len() <= requests_between(log, from, further).len(),
        requests_between(log, from, further).take(requests_between(log, from, to).len() as int)
            == requests_between(log, from, to),
    decreases further - to,
{
    let near = requests_between(log, from, to);
    let far = requests_between(log, from, further);
    if to < further {
        lemma_requests_between_grows(log, from, to, further - 1);
        if further <= from {
            assert(near.len() == 0);
            assert(far.take(0) =~= near);
        } else {
            let before = requests_between(log, from, further - 1);
            assert(far == before + log[further].requests);
            assert(far.take(near.len() as int) =~= before.take(near.len() as int));
        }
    } else {
        assert(far.take(near.len() as int) =~= near);
    }
}

/// Every request that is executed stands in the log, at a position after
/// the last executed one.
pub proof fn lemma_executed_is_logged<A>(log: Seq<LogEntryView<A>>, from: int, to: int, i: int)
    requires
        0 <= i < requests_between(log, from, to).len(),
    ensures
        exists|position: int, j: int|
            from < position <= to && 0 <= j < log[position].requests.len() && requests_between(
                log,
                from,
                to,
            )[i] == #[trigger] log[position].requests[j],
    decreases to - from,
{
    if to > from {
        let before = requests_between(log, from, to - 1);
        if i < before.len() {
            lemma_executed_is_logged(log, from, to - 1, i);
            let (position, j) = choose|position: int, j: int|
                from < position <= to - 1 && 0 <= j < log[position].requests.len() && before[i]
                    == #[trigger] log[position].requests[j];
            assert(requests_between(log, from, to)[i] == log[position].requests[j]);
        } else {
            assert(requests_between(log, from, to)[i] == log[to].requests[i - before.len()]);
        }
    }
}

/// Closing batches fails only when the log positions have run out.
pub proof fn lemma_close_batches_error<A>(state: ReplicaState<A>)
    ensures
        state.close_batches() matches Err(error) ==> error == Error::Exhausted,
    decreases state.batch_room(),
{
    if state.is_primary() && state.requests.len() > 0 && state.op_num < state.commit_num
        + NUM_CONCURRENT_PRE_PREPARE && state.op_num != u32::MAX {
        lemma_close_batches_error(state.close_batch().0);
    }
}

/// Two replicas that have committed one log position hold, for it, the
/// commits of more than `f` replicas in common, hence of a correct one: both
/// know `n` replicas of which `f` may be faulty, `n` is at least `3 * f + 1`,
/// and every commit is of one of the `n`.
pub proof fn lemma_committed_share_voters<A>(
    first: ReplicaState<A>,
    second: ReplicaState<A>,
    op_num: int,
)
    requires
        first.wf(),
        second.wf(),
        first.num_replica == second.num_replica,
        first.num_faulty == second.num_faulty,
        first.num_replica <= 256,
        first.num_replica >= 3 * first.num_faulty + 1,
        0 <= op_num < first.log.len(),
        0 <= op_num < second.log.len(),
        first.log[op_num].committed(),
        second.log[op_num].committed(),
        voters(first.log[op_num].commits).subset_of(replicas(first.num_replica as nat)),
        voters(second.log[op_num].commits).subset_of(replicas(first.num_replica as nat)),
    ensures
        voters(first.log[op_num].commits).intersect(voters(second.log[op_num].commits)).len()
            >= first.num_faulty + 1,
{
    assert(first.certified(first.log[op_num]));
    assert(second.certified(second.log[op_num]));
    lemma_voters_len(first.log[op_num].commits);
    lemma_voters_len(second.log[op_num].commits);
    lemma_quorums_intersect(
        first.num_replica as nat,
        first.num_faulty as nat,
        voters(first.log[op_num].commits),
        voters(second.log[op_num].commits),
    );
}

/// Two replicas that have committed one log position and hold, for it, the
/// same commit of some replica, hold proposals for the same digest: every
/// commit that a log holds is for the digest of the log's proposal.
pub proof fn lemma_committed_on_one_digest<A>(
    first: ReplicaState<A>,
    second: ReplicaState<A>,
    op_num: int,
    i: int,
    j: int,
)
    requires
        first.wf(),
        second.wf(),
        0 <= op_num < first.log.len(),
        0 <= op_num < second.log.len(),
        0 <= i < first.log[op_num].commits.len(),
        0 <= j < second.log[op_num].commits.len(),
        first.log[op_num].commits[i].1.inner == second.log[op_num].commits[j].1.inner,
    ensures
        first.log[op_num].pre_prepare is Some,
        second.log[op_num].pre_prepare is Some,
        first.log[op_num].pre_prepare->Some_0.inner.digest
            == second.log[op_num].pre_prepare->Some_0.inner.digest,
{
    assert(first.certified(first.log[op_num]));
    assert(second.certified(second.log[op_num]));
}

/// Two replicas that have committed one log position and hold, for it, the
/// same commit of some replica, hold the same batch of requests, as far as
/// `hash` tells batches apart: each batch hashes to the digest of its
/// proposal, which is what the verification of a proposal checks, and no
/// other batch of the two hashes to it.
pub proof fn lemma_committed_agree<A>(
    first: ReplicaState<A>,
    second: ReplicaState<A>,
    op_num: int,
    i: int,
    j: int,
    hash: spec_fn(Seq<RequestView<A>>) -> H256,
)
    requires
        first.wf(),
        second.wf(),
        0 <= op_num < first.log.len(),
        0 <= op_num < second.log.len(),
        0 <= i < first.log[op_num].commits.len(),
        0 <= j < second.log[op_num].commits.len(),
        first.log[op_num].commits[i].1.inner == second.log[op_num].commits[j].1.inner,
        hash(first.log[op_num].requests) == first.log[op_num].pre_prepare->Some_0.inner.digest,
        hash(second.log[op_num].requests) == second.log[op_num].pre_prepare->Some_0.inner.digest,
        hash(first.log[op_num].requests) == hash(second.log[op_num].requests)
            ==> first.log[op_num].requests == second.log[op_num].requests,
    ensures
        first.log[op_num].requests == second.log[op_num].requests,
{
    lemma_committed_on_one_digest(first, second, op_num, i, j);
}

} // verus!
