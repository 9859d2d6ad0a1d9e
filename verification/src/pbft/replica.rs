//! The replica: orders batches of requests, executes them in order, and
//! answers the clients.
use crate::pbft::quorum::{Pending, Quorums};
use crate::pbft::state::{
    chained, committed_by_quorum, committed_upto, executed_as, extended, failed,
    lemma_close_batches_error, lemma_committed_upto_bounds, lemma_ran_nothing,
    lemma_requests_between_grows, log_kept, prepared_by_quorum, ran, remember, replied,
    replies_grow, reply_actions, reply_to, requests_between, LogEntryView, ReplicaState, MAX_BATCH,
    NUM_CONCURRENT_PRE_PREPARE,
};
use crate::pbft::quorum::Vote;
use crate::pbft::{
    replica_action_views, App, AppError, Commit, Error, PrePrepare, Prepare, ReplicaAction,
    ReplicaActionView, Reply, ReplyView, Verifiable, H256,
};
use crate::util::{clone_requests, request_views, Payload, Request};
use std::collections::BTreeMap;
use vstd::prelude::*;

verus! {

/// What the log holds for one position.
pub struct LogEntry<A> {
    pub view_num: u32,
    pub pre_prepare: Option<Verifiable<PrePrepare>>,
    pub requests: Vec<Request<A>>,
    pub prepares: Vec<(u8, Verifiable<Prepare>)>,
    pub commits: Vec<(u8, Verifiable<Commit>)>,
}

impl<A> View for LogEntry<A> {
    type V = LogEntryView<A>;

    open spec fn view(&self) -> LogEntryView<A> {
        LogEntryView {
            view_num: self.view_num,
            pre_prepare: self.pre_prepare,
            requests: request_views(self.requests@),
            prepares: self.prepares@,
            commits: self.commits@,
        }
    }
}

/// What the replica remembers of a client: the sequence number of its latest
/// request, and the reply to it once there is one.
pub open spec fn reply_view(entry: (u32, Option<Reply>)) -> (u32, Option<ReplyView>) {
    (
        entry.0,
        match entry.1 {
            Some(reply) => Some(reply@),
            None => None,
        },
    )
}

/// What the replica remembers of its clients, as plain values.
pub open spec fn replies_view(replies: Map<u32, (u32, Option<Reply>)>) -> Map<
    u32,
    (u32, Option<ReplyView>),
> {
    replies.map_values(|entry: (u32, Option<Reply>)| reply_view(entry))
}

/// A replica of the log.
pub struct Replica<S, A> {
    id: u8,
    num_replica: usize,
    num_faulty: usize,
    replies: BTreeMap<u32, (u32, Option<Reply>)>,
    requests: Vec<Request<A>>,
    view_num: u32,
    op_num: u32,
    log: Vec<LogEntry<A>>,
    prepare_quorums: Quorums<Prepare>,
    commit_quorums: Quorums<Commit>,
    commit_num: u32,
    app: S,
    pending_prepares: Pending<Prepare>,
    pending_commits: Pending<Commit>,
}

impl<S, A> View for Replica<S, A> {
    type V = ReplicaState<A>;

    closed spec fn view(&self) -> ReplicaState<A> {
        ReplicaState {
            id: self.id,
            num_replica: self.num_replica,
            num_faulty: self.num_faulty,
            replies: replies_view(self.replies@),
            requests: request_views(self.requests@),
            view_num: self.view_num,
            op_num: self.op_num,
            log: self.log@.map_values(|entry: LogEntry<A>| entry@),
            prepare_quorums: self.prepare_quorums@,
            commit_quorums: self.commit_quorums@,
            commit_num: self.commit_num,
            pending_prepares: self.pending_prepares@,
            pending_commits: self.pending_commits@,
        }
    }
}

impl<S: App, A: Copy> Replica<S, A> {
    /// A replica that has seen nothing yet.
    pub fn new(id: u8, app: S, num_replica: usize, num_faulty: usize) -> (r: Self)
        requires
            0 < num_replica,
            num_faulty <= num_replica,
        ensures
            r@.wf(),
            r@ == (ReplicaState::<A> {
                id,
                num_replica,
                num_faulty,
                replies: Map::empty(),
                requests: Seq::empty(),
                view_num: 0,
                op_num: 0,
                log: Seq::empty(),
                prepare_quorums: Map::empty(),
                commit_quorums: Map::empty(),
                commit_num: 0,
                pending_prepares: Map::empty(),
                pending_commits: Map::empty(),
            }),
    {
        let r = Replica {
            id,
            num_replica,
            num_faulty,
            replies: BTreeMap::new(),
            requests: Vec::new(),
            view_num: 0,
            op_num: 0,
            log: Vec::new(),
            prepare_quorums: Quorums::new(),
            commit_quorums: Quorums::new(),
            commit_num: 0,
            app,
            pending_prepares: Pending::new(),
            pending_commits: Pending::new(),
        };
        assert(r@.replies =~= Map::empty());
        assert(r@.requests =~= Seq::empty());
        assert(r@.log =~= Seq::empty());
        r
    }

    /// Whether this replica leads the current view.
    pub fn is_primary(&self) -> (r: bool)
        requires
            self@.wf(),
        ensures
            r == self@.is_primary(),
    {
        self.view_num as usize % self.num_replica == self.id as usize
    }

    /// Takes up to `MAX_BATCH` of the waiting requests, gives them the next
    /// log position, and asks for a signed proposal.
    pub fn close_batch(&mut self) -> (action: ReplicaAction<A>)
        requires
            old(self)@.wf(),
            old(self)@.is_primary(),
            old(self)@.requests.len() > 0,
            old(self)@.op_num < u32::MAX,
        ensures
            final(self)@ == old(self)@.close_batch().0,
            action@ == old(self)@.close_batch().1,
            final(self)@.wf(),
            log_kept(old(self)@, final(self)@),
            final(self).application() == old(self).application(),
    {
        self.op_num = self.op_num + 1;
        let size = if self.requests.len() <= MAX_BATCH {
            self.requests.len()
        } else {
            MAX_BATCH
        };
        let mut batch = self.requests.split_off(size);
        std::mem::swap(&mut self.requests, &mut batch);
        proof {
            assert(request_views(self.requests@) =~= old(self)@.requests.skip(size as int));
            assert(request_views(batch@) =~= old(self)@.requests.take(size as int));
        }
        ReplicaAction::SignPrePrepare {
            view_num: self.view_num,
            op_num: self.op_num,
            requests: batch,
        }
    }

    /// Handles a request from a client: answers from the cache where the
    /// request is not new, and queues it for ordering where it is.
    pub fn on_request(&mut self, request: Request<A>) -> (r: Result<Vec<ReplicaAction<A>>, Error>)
        requires
            old(self)@.wf(),
        ensures
            match old(self)@.on_request(request@) {
                Ok((state, actions)) => r is Ok && final(self)@ == state && replica_action_views(
                    r->Ok_0@,
                ) == actions && state.wf(),
                Err(error) => r == Err::<Vec<ReplicaAction<A>>, Error>(error),
            },
            replies_grow(old(self)@.replies, final(self)@.replies),
            log_kept(old(self)@, final(self)@),
            final(self)@.wf(),
            final(self).application() == old(self).application(),
    {
        let mut actions: Vec<ReplicaAction<A>> = Vec::new();
        match self.replies.get(&request.client_id) {
            Some(entry) => {
                if entry.0 > request.seq {
                    assert(replica_action_views(actions@) =~= Seq::empty());
                    return Ok(actions);
                }
                if entry.0 == request.seq {
                    match &entry.1 {
                        Some(reply) => {
                            let cached = reply.clone();
                            actions.push(ReplicaAction::SendReply(request.client_addr, cached));
                            assert(replica_action_views(actions@) =~= seq![
                                ReplicaActionView::SendReply(
                                    request.client_addr,
                                    old(self)@.replies[request.client_id].1->Some_0,
                                ),
                            ]);
                        },
                        None => {
                            assert(replica_action_views(actions@) =~= Seq::empty());
                        },
                    }
                    return Ok(actions);
                }
            },
            None => {},
        }
        if !self.is_primary() {
            return Err(Error::Unimplemented);
        }
        let ghost request_view = request@;
        self.replies.insert(request.client_id, (request.seq, None));
        self.requests.push(request);
        proof {
            assert(self@.replies =~= old(self)@.replies.insert(
                request_view.client_id,
                (request_view.seq, None),
            ));
            assert(self@.requests =~= old(self)@.requests.push(request_view));
        }
        if self.op_num as u64 >= self.commit_num as u64 + NUM_CONCURRENT_PRE_PREPARE as u64 {
            assert(replica_action_views(actions@) =~= Seq::empty());
            return Ok(actions);
        }
        if self.op_num == u32::MAX {
            return Err(Error::Exhausted);
        }
        let ghost queued = self@;
        let action = self.close_batch();
        actions.push(action);
        assert(replica_action_views(actions@) =~= seq![queued.close_batch().1]);
        Ok(actions)
    }
}

impl<S: App, A: Copy> Replica<S, A> {
    /// Whether the log holds a proposal for `op_num`.
    fn has_pre_prepare(&self, op_num: u32) -> (r: bool)
        ensures
            r == self@.has_pre_prepare(op_num),
    {
        assert(self@.log.len() == self.log@.len());
        let len = self.log.len();
        if op_num as u64 >= usize::MAX as u64 {
            return false;
        }
        let index = op_num as usize;
        if index >= len {
            false
        } else {
            assert(self@.log[index as int] == self.log@[index as int]@);
            self.log[index].pre_prepare.is_some()
        }
    }

    /// The digest of the proposal that the log holds for `op_num`, where it
    /// holds one.
    fn proposed(&self, op_num: u32) -> (r: Option<H256>)
        ensures
            match r {
                Some(digest) => self@.has_pre_prepare(op_num) && digest == self@.proposed(op_num),
                None => !self@.has_pre_prepare(op_num),
            },
    {
        assert(self@.log.len() == self.log@.len());
        let len = self.log.len();
        if op_num as u64 >= usize::MAX as u64 {
            return None;
        }
        let index = op_num as usize;
        if index >= len {
            None
        } else {
            assert(self@.log[index as int] == self.log@[index as int]@);
            match &self.log[index].pre_prepare {
                Some(pre_prepare) => Some(pre_prepare.inner.digest),
                None => None,
            }
        }
    }

    /// Records `pre_prepare` and its batch at its position, which the log is
    /// first made long enough to hold, and drops the votes that have arrived
    /// for the position and are not for the digest of the proposal.
    fn record(&mut self, pre_prepare: Verifiable<PrePrepare>, requests: Vec<Request<A>>)
        requires
            old(self)@.wf(),
            pre_prepare.inner.op_num < usize::MAX,
            !old(self)@.has_pre_prepare(pre_prepare.inner.op_num),
        ensures
            final(self)@ == old(self)@.record(pre_prepare, request_views(requests@)),
            final(self)@.wf(),
            log_kept(old(self)@, final(self)@),
            final(self).application() == old(self).application(),
    {
        let index = pre_prepare.inner.op_num as usize;
        while self.log.len() <= index
            invariant
                self.application() == old(self).application(),
                index == pre_prepare.inner.op_num,
                index < usize::MAX,
                old(self)@.log.len() <= self.log.len(),
                self.log.len() <= if old(self)@.log.len() <= index {
                    index + 1
                } else {
                    old(self)@.log.len() as int
                },
                self@ == (ReplicaState {
                    log: old(self)@.log + Seq::new(
                        (self.log.len() - old(self)@.log.len()) as nat,
                        |i: int| LogEntryView::<A>::empty(),
                    ),
                    ..old(self)@
                }),
            decreases index + 1 - self.log.len(),
        {
            let ghost before = self@.log;
            self.log.push(
                LogEntry {
                    view_num: 0,
                    pre_prepare: None,
                    requests: Vec::new(),
                    prepares: Vec::new(),
                    commits: Vec::new(),
                },
            );
            proof {
                assert(request_views(Seq::<Request<A>>::empty()) =~= Seq::empty());
                assert(self@.log =~= before.push(LogEntryView::<A>::empty()));
                assert(self@.log =~= old(self)@.log + Seq::new(
                    (self.log.len() - old(self)@.log.len()) as nat,
                    |i: int| LogEntryView::<A>::empty(),
                ));
            }
        }
        proof {
            assert(self@.log =~= extended(old(self)@.log, pre_prepare.inner.op_num));
        }
        let ghost log = self@.log;
        let entry = &mut self.log[index];
        entry.pre_prepare = Some(pre_prepare);
        entry.view_num = self.view_num;
        entry.requests = requests;
        proof {
            assert(self@.log =~= log.update(
                index as int,
                LogEntryView {
                    view_num: self.view_num,
                    pre_prepare: Some(pre_prepare),
                    requests: request_views(requests@),
                    ..log[index as int]
                },
            ));
        }
        self.prepare_quorums.retain(pre_prepare.inner.op_num, &pre_prepare.inner.digest);
        self.commit_quorums.retain(pre_prepare.inner.op_num, &pre_prepare.inner.digest);
    }

    /// Handles the proposal that this replica has made, now signed: records
    /// it, drops the votes already received for another digest, and sends it
    /// out.
    pub fn on_signed_pre_prepare(
        &mut self,
        pre_prepare: Verifiable<PrePrepare>,
        requests: Vec<Request<A>>,
    ) -> (r: Result<Vec<ReplicaAction<A>>, Error>)
        requires
            old(self)@.wf(),
        ensures
            match old(self)@.on_signed_pre_prepare(pre_prepare, request_views(requests@)) {
                Ok((state, actions)) => r is Ok && final(self)@ == state && replica_action_views(
                    r->Ok_0@,
                ) == actions && state.wf(),
                Err(error) => r == Err::<Vec<ReplicaAction<A>>, Error>(error),
            },
            log_kept(old(self)@, final(self)@),
            final(self)@.wf(),
            final(self).application() == old(self).application(),
    {
        let mut actions: Vec<ReplicaAction<A>> = Vec::new();
        if pre_prepare.inner.view_num != self.view_num {
            assert(replica_action_views(actions@) =~= Seq::empty());
            return Ok(actions);
        }
        if pre_prepare.inner.op_num as u64 >= usize::MAX as u64 {
            return Err(Error::Exhausted);
        }
        if self.has_pre_prepare(pre_prepare.inner.op_num) {
            return Err(Error::DuplicateLogInsertion);
        }
        self.record(pre_prepare, clone_requests(&requests));
        actions.push(ReplicaAction::BroadcastPrePrepare(pre_prepare, requests));
        assert(replica_action_views(actions@) =~= seq![
            ReplicaActionView::BroadcastPrePrepare(pre_prepare, request_views(requests@)),
        ]);
        Ok(actions)
    }

    /// Handles a proposal from another replica: asks for it to be verified
    /// unless the position already holds one.
    pub fn on_pre_prepare(
        &mut self,
        pre_prepare: Verifiable<PrePrepare>,
        requests: Vec<Request<A>>,
    ) -> (r: Result<Vec<ReplicaAction<A>>, Error>)
        requires
            old(self)@.wf(),
        ensures
            match old(self)@.on_pre_prepare(pre_prepare, request_views(requests@)) {
                Ok((state, actions)) => r is Ok && final(self)@ == state && replica_action_views(
                    r->Ok_0@,
                ) == actions && state.wf(),
                Err(error) => r == Err::<Vec<ReplicaAction<A>>, Error>(error),
            },
            log_kept(old(self)@, final(self)@),
            final(self)@.wf(),
            final(self).application() == old(self).application(),
    {
        let mut actions: Vec<ReplicaAction<A>> = Vec::new();
        if pre_prepare.inner.view_num != self.view_num {
            if pre_prepare.inner.view_num > self.view_num {
                return Err(Error::Unimplemented);
            }
            assert(replica_action_views(actions@) =~= Seq::empty());
            return Ok(actions);
        }
        if self.has_pre_prepare(pre_prepare.inner.op_num) {
            assert(replica_action_views(actions@) =~= Seq::empty());
            return Ok(actions);
        }
        let replica_id = pre_prepare.inner.view_num as usize % self.num_replica;
        actions.push(ReplicaAction::VerifyPrePrepare { replica_id, pre_prepare, requests });
        assert(replica_action_views(actions@) =~= seq![
            ReplicaActionView::VerifyPrePrepare {
                replica_id,
                pre_prepare,
                requests: request_views(requests@),
            },
        ]);
        Ok(actions)
    }

    /// Handles a verified proposal from another replica: records it, drops
    /// the votes already received for another digest, and asks for this
    /// replica's prepare to be signed.
    pub fn on_verified_pre_prepare(
        &mut self,
        pre_prepare: Verifiable<PrePrepare>,
        requests: Vec<Request<A>>,
    ) -> (r: Result<Vec<ReplicaAction<A>>, Error>)
        requires
            old(self)@.wf(),
        ensures
            match old(self)@.on_verified_pre_prepare(pre_prepare, request_views(requests@)) {
                Ok((state, actions)) => r is Ok && final(self)@ == state && replica_action_views(
                    r->Ok_0@,
                ) == actions && state.wf(),
                Err(error) => r == Err::<Vec<ReplicaAction<A>>, Error>(error),
            },
            log_kept(old(self)@, final(self)@),
            final(self)@.wf(),
            final(self).application() == old(self).application(),
    {
        let mut actions: Vec<ReplicaAction<A>> = Vec::new();
        let op_num = pre_prepare.inner.op_num;
        if pre_prepare.inner.view_num != self.view_num || self.has_pre_prepare(op_num) {
            assert(replica_action_views(actions@) =~= Seq::empty());
            return Ok(actions);
        }
        if op_num as u64 >= usize::MAX as u64 {
            return Err(Error::Exhausted);
        }
        self.record(pre_prepare, requests);
        let prepare = Prepare {
            view_num: self.view_num,
            op_num,
            digest: pre_prepare.inner.digest,
            replica_id: self.id,
        };
        actions.push(ReplicaAction::SignPrepare(prepare));
        assert(replica_action_views(actions@) =~= seq![ReplicaActionView::SignPrepare(prepare)]);
        Ok(actions)
    }
}

impl<S: App, A: Copy> Replica<S, A> {
    /// Decides whether a prepare that has just arrived is worth verifying,
    /// and returns the request to verify it if so.
    pub fn submit_prepare(&self, prepare: Verifiable<Prepare>) -> (r: Result<
        Option<ReplicaAction<A>>,
        Error,
    >)
        requires
            self@.wf(),
        ensures
            match self@.submit_prepare(prepare) {
                Ok(true) => r is Ok && r->Ok_0 is Some && r->Ok_0->Some_0@
                    == ReplicaActionView::<A>::VerifyPrepare(prepare),
                Ok(false) => r is Ok && r->Ok_0 is None,
                Err(error) => r == Err::<Option<ReplicaAction<A>>, Error>(error),
            },
    {
        if prepare.inner.view_num != self.view_num {
            if prepare.inner.view_num > self.view_num {
                return Err(Error::Unimplemented);
            }
            return Ok(None);
        }
        assert(self@.log.len() == self.log@.len());
        let len = self.log.len();
        if (prepare.inner.op_num as u64) < len as u64 {
            let entry = &self.log[prepare.inner.op_num as usize];
            assert(self@.log[prepare.inner.op_num as int] == entry@);
            if entry.prepares.len() > 0 {
                return Ok(None);
            }
            match &entry.pre_prepare {
                Some(pre_prepare) => {
                    if !prepare.inner.digest.same(&pre_prepare.inner.digest) {
                        return Ok(None);
                    }
                },
                None => {},
            }
        }
        Ok(Some(ReplicaAction::VerifyPrepare(prepare)))
    }

    /// Counts a verified prepare. A vote against the proposal that the log
    /// holds is dropped, and a vote for a position without a proposal waits
    /// for it. When the vote completes a quorum for the digest of the
    /// proposal, the votes move into the log and this replica's commit is to
    /// be signed.
    pub fn insert_prepare(&mut self, prepare: Verifiable<Prepare>) -> (r: Result<
        Vec<ReplicaAction<A>>,
        Error,
    >)
        requires
            old(self)@.wf(),
        ensures
            match old(self)@.insert_prepare(prepare) {
                Ok((state, actions)) => r is Ok && final(self)@ == state && replica_action_views(
                    r->Ok_0@,
                ) == actions && state.wf(),
                Err(error) => r == Err::<Vec<ReplicaAction<A>>, Error>(error),
            },
            prepared_by_quorum(old(self)@, final(self)@),
            log_kept(old(self)@, final(self)@),
            final(self)@.wf(),
            final(self).application() == old(self).application(),
    {
        let mut actions: Vec<ReplicaAction<A>> = Vec::new();
        let op_num = prepare.inner.op_num;
        let proposed = self.proposed(op_num);
        match &proposed {
            Some(digest) => {
                if !digest.same(&prepare.inner.digest) {
                    assert(replica_action_views(actions@) =~= Seq::empty());
                    return Ok(actions);
                }
            },
            None => {},
        }
        let count = self.prepare_quorums.insert(op_num, prepare.inner.replica_id, prepare);
        if count + 1 < self.num_replica - self.num_faulty || proposed.is_none() {
            assert(replica_action_views(actions@) =~= Seq::empty());
            return Ok(actions);
        }
        let index = op_num as usize;
        assert(self@.log.len() == self.log@.len());
        assert(self@.log[index as int] == self.log@[index as int]@);
        if self.log[index].prepares.len() > 0 {
            return Err(Error::DuplicateLogInsertion);
        }
        let ghost counted = self@;
        let votes = self.prepare_quorums.take(op_num);
        let ghost log = self@.log;
        self.log[index].prepares = votes;
        proof {
            assert forall|i: int| 0 <= i < votes@.len() implies (
            #[trigger] votes@[i]).1.inner.vote_digest() == counted.proposed(op_num) by {
                assert(counted.prepare_quorums[op_num].contains_key(votes@[i].0));
            }
        }
        let commit = Commit {
            view_num: self.view_num,
            op_num,
            digest: prepare.inner.digest,
            replica_id: self.id,
        };
        actions.push(ReplicaAction::SignCommit(commit));
        proof {
            assert(self@.log =~= log.update(
                index as int,
                LogEntryView { prepares: votes@, ..log[index as int] },
            ));
            assert(self@.prepare_quorums =~= old(self)@.prepare_quorums.remove(op_num));
            assert(replica_action_views(actions@) =~= seq![ReplicaActionView::SignCommit(commit)]);
        }
        Ok(actions)
    }

    /// Handles this replica's own prepare, now signed: sends it out, and
    /// counts it unless the position is prepared already.
    pub fn on_signed_prepare(&mut self, prepare: Verifiable<Prepare>) -> (r: Result<
        Vec<ReplicaAction<A>>,
        Error,
    >)
        requires
            old(self)@.wf(),
        ensures
            match old(self)@.on_signed_prepare(prepare) {
                Ok((state, actions)) => r is Ok && final(self)@ == state && replica_action_views(
                    r->Ok_0@,
                ) == actions && state.wf(),
                Err(error) => r == Err::<Vec<ReplicaAction<A>>, Error>(error),
            },
            prepared_by_quorum(old(self)@, final(self)@),
            log_kept(old(self)@, final(self)@),
            final(self)@.wf(),
            final(self).application() == old(self).application(),
    {
        let mut actions: Vec<ReplicaAction<A>> = Vec::new();
        if prepare.inner.view_num != self.view_num {
            assert(replica_action_views(actions@) =~= Seq::empty());
            return Ok(actions);
        }
        assert(self@.log.len() == self.log@.len());
        let len = self.log.len();
        if prepare.inner.op_num as u64 >= len as u64 {
            return Err(Error::MissingLogEntry);
        }
        let index = prepare.inner.op_num as usize;
        assert(self@.log[index as int] == self.log@[index as int]@);
        actions.push(ReplicaAction::BroadcastPrepare(prepare));
        if self.log[index].prepares.len() == 0 {
            let mut more = self.insert_prepare(prepare)?;
            let ghost first = actions@;
            let ghost second = more@;
            actions.append(&mut more);
            assert(replica_action_views(actions@) =~= replica_action_views(first)
                + replica_action_views(second));
            assert(replica_action_views(first) =~= seq![
                ReplicaActionView::BroadcastPrepare(prepare),
            ]);
        } else {
            assert(replica_action_views(actions@) =~= seq![
                ReplicaActionView::BroadcastPrepare(prepare),
            ]);
        }
        Ok(actions)
    }

    /// Handles a prepare from another replica. Only one vote per position is
    /// verified at a time: one that arrives meanwhile waits.
    pub fn on_prepare(&mut self, prepare: Verifiable<Prepare>) -> (r: Result<
        Vec<ReplicaAction<A>>,
        Error,
    >)
        requires
            old(self)@.wf(),
        ensures
            match old(self)@.on_prepare(prepare) {
                Ok((state, actions)) => r is Ok && final(self)@ == state && replica_action_views(
                    r->Ok_0@,
                ) == actions && state.wf(),
                Err(error) => r == Err::<Vec<ReplicaAction<A>>, Error>(error),
            },
            log_kept(old(self)@, final(self)@),
            final(self)@.wf(),
            final(self).application() == old(self).application(),
    {
        let mut actions: Vec<ReplicaAction<A>> = Vec::new();
        let op_num = prepare.inner.op_num;
        if self.pending_prepares.defer(op_num, prepare) {
            assert(replica_action_views(actions@) =~= Seq::empty());
            return Ok(actions);
        }
        match self.submit_prepare(prepare)? {
            Some(action) => {
                self.pending_prepares.start(op_num);
                actions.push(action);
                assert(replica_action_views(actions@) =~= seq![
                    ReplicaActionView::VerifyPrepare(prepare),
                ]);
            },
            None => {
                assert(replica_action_views(actions@) =~= Seq::empty());
            },
        }
        Ok(actions)
    }

    /// Handles a verified prepare: counts it, then has the next waiting vote
    /// for the same position verified, if one is worth it.
    pub fn on_verified_prepare(&mut self, prepare: Verifiable<Prepare>) -> (r: Result<
        Vec<ReplicaAction<A>>,
        Error,
    >)
        requires
            old(self)@.wf(),
        ensures
            match old(self)@.on_verified_prepare(prepare) {
                Ok((state, actions)) => r is Ok && final(self)@ == state && replica_action_views(
                    r->Ok_0@,
                ) == actions && state.wf(),
                Err(error) => r == Err::<Vec<ReplicaAction<A>>, Error>(error),
            },
            prepared_by_quorum(old(self)@, final(self)@),
            log_kept(old(self)@, final(self)@),
            final(self)@.wf(),
            final(self).application() == old(self).application(),
    {
        if prepare.inner.view_num != self.view_num {
            let actions: Vec<ReplicaAction<A>> = Vec::new();
            assert(replica_action_views(actions@) =~= Seq::empty());
            return Ok(actions);
        }
        let op_num = prepare.inner.op_num;
        let mut actions = self.insert_prepare(prepare)?;
        let ghost start = old(self)@;
        let ghost counted = self@;
        let ghost first = replica_action_views(actions@);
        loop
            invariant_except_break
                self@.drain_prepares(op_num) == counted.drain_prepares(op_num),
                replica_action_views(actions@) == first,
            invariant
                start == old(self)@,
                self.application() == old(self).application(),
                self@.wf(),
                self@.log == counted.log,
                prepared_by_quorum(start, self@),
                log_kept(start, self@),
                prepare.inner.view_num == start.view_num,
                op_num == prepare.inner.op_num,
                start.insert_prepare(prepare) == Ok::<
                    (ReplicaState<A>, Seq<ReplicaActionView<A>>),
                    Error,
                >((counted, first)),
            ensures
                counted.drain_prepares(op_num) matches Ok((state, second)) && self@ == state
                    && replica_action_views(actions@) == first + second,
            decreases self@.waiting_prepares(op_num),
        {
            match self.pending_prepares.next(op_num) {
                None => {
                    assert(first + Seq::empty() =~= first);
                    break ;
                },
                Some(vote) => {
                    match self.submit_prepare(vote) {
                        Err(error) => {
                            return Err(error);
                        },
                        Ok(Some(action)) => {
                            actions.push(action);
                            assert(replica_action_views(actions@) =~= first + seq![
                                ReplicaActionView::VerifyPrepare(vote),
                            ]);
                            break ;
                        },
                        Ok(None) => {},
                    }
                },
            }
        }
        Ok(actions)
    }
}

/// Builds the reply to `request` from what the application returned, and
/// remembers it for the client unless the client has sent a later request
/// since. Returns the reply, addressed to the client.
pub fn remember_reply<A: Copy>(
    replies: &mut BTreeMap<u32, (u32, Option<Reply>)>,
    request: &Request<A>,
    result: Vec<u8>,
    view_num: u32,
    id: u8,
) -> (action: ReplicaAction<A>)
    ensures
        replies_view(final(replies)@) == remember(
            replies_view(old(replies)@),
            request@,
            reply_to(request@, result@, view_num, id),
        ),
        action@ == ReplicaActionView::SendReply(
            request.client_addr,
            reply_to(request@, result@, view_num, id),
        ),
        replies_grow(replies_view(old(replies)@), replies_view(final(replies)@)),
{
    let reply = Reply { seq: request.seq, result: Payload(result), view_num, replica_id: id };
    let newer = match replies.get(&request.client_id) {
        Some(entry) => entry.0 <= request.seq,
        None => true,
    };
    if newer {
        replies.insert(request.client_id, (request.seq, Some(reply.clone())));
    }
    proof {
        assert(replies_view(final(replies)@) =~= remember(
            replies_view(old(replies)@),
            request@,
            reply_to(request@, result@, view_num, id),
        ));
    }
    ReplicaAction::SendReply(request.client_addr, reply)
}

impl<S: App, A: Copy> Replica<S, A> {
    /// Decides whether a commit that has just arrived is worth verifying,
    /// and returns the request to verify it if so.
    pub fn submit_commit(&self, commit: Verifiable<Commit>) -> (r: Result<
        Option<ReplicaAction<A>>,
        Error,
    >)
        requires
            self@.wf(),
        ensures
            match self@.submit_commit(commit) {
                Ok(true) => r is Ok && r->Ok_0 is Some && r->Ok_0->Some_0@
                    == ReplicaActionView::<A>::VerifyCommit(commit),
                Ok(false) => r is Ok && r->Ok_0 is None,
                Err(error) => r == Err::<Option<ReplicaAction<A>>, Error>(error),
            },
    {
        if commit.inner.view_num != self.view_num {
            if commit.inner.view_num > self.view_num {
                return Err(Error::Unimplemented);
            }
            return Ok(None);
        }
        assert(self@.log.len() == self.log@.len());
        let len = self.log.len();
        if (commit.inner.op_num as u64) < len as u64 {
            let entry = &self.log[commit.inner.op_num as usize];
            assert(self@.log[commit.inner.op_num as int] == entry@);
            if entry.commits.len() > 0 {
                return Ok(None);
            }
            match &entry.pre_prepare {
                Some(pre_prepare) => {
                    if !commit.inner.digest.same(&pre_prepare.inner.digest) {
                        return Ok(None);
                    }
                },
                None => {},
            }
        }
        Ok(Some(ReplicaAction::VerifyCommit(commit)))
    }

    /// Executes the requests of the committed positions that follow the last
    /// executed one without a gap, and adds the replies to `actions`.
    fn execute_committed(&mut self, actions: &mut Vec<ReplicaAction<A>>) -> (r: Result<
        Ghost<Seq<Seq<u8>>>,
        Error,
    >)
        requires
            old(self)@.wf(),
        ensures
            match r {
                Ok(results) => {
                    &&& results@.len() == old(self)@.executable().len()
                    &&& ran(
                        old(self).application(),
                        old(self)@.executable(),
                        results@,
                        final(self).application(),
                    )
                    &&& final(self)@ == old(self)@.execute(results@).0
                    &&& replica_action_views(final(actions)@) == replica_action_views(
                        old(actions)@,
                    ) + old(self)@.execute(results@).1
                    &&& final(self)@.wf()
                },
                Err(error) => error == Error::App && failed(
                    old(self).application(),
                    old(self)@.executable(),
                    final(self).application(),
                ),
            },
            replies_grow(old(self)@.replies, final(self)@.replies),
            final(self)@.log == old(self)@.log,
            log_kept(old(self)@, final(self)@),
            final(self)@.wf(),
    {
        let ghost start = self@;
        let ghost begun = replica_action_views(actions@);
        let ghost mut results: Seq<Seq<u8>> = Seq::empty();
        let ghost mut apps: Seq<S> = seq![self.app];
        let ghost target = committed_upto(start.log, start.commit_num as int);
        proof {
            assert(chained::<S, A>(apps, Seq::empty(), results));
            assert(reply_actions(
                requests_between(start.log, start.commit_num as int, start.commit_num as int),
                results,
                start.view_num,
                start.id,
            ) =~= Seq::empty());
            assert(begun + Seq::empty() =~= begun);
        }
        loop
            invariant
                start == old(self)@,
                start.wf(),
                begun == replica_action_views(old(actions)@),
                self@ == (ReplicaState {
                    commit_num: self@.commit_num,
                    replies: self@.replies,
                    ..start
                }),
                start.commit_num <= self@.commit_num,
                committed_upto(start.log, self@.commit_num as int) == target,
                target == committed_upto(start.log, start.commit_num as int),
                results.len() == requests_between(
                    start.log,
                    start.commit_num as int,
                    self@.commit_num as int,
                ).len(),
                self@.replies == replied(
                    start.replies,
                    requests_between(start.log, start.commit_num as int, self@.commit_num as int),
                    results,
                    start.view_num,
                    start.id,
                ),
                replica_action_views(actions@) == begun + reply_actions(
                    requests_between(start.log, start.commit_num as int, self@.commit_num as int),
                    results,
                    start.view_num,
                    start.id,
                ),
                replies_grow(start.replies, self@.replies),
                chained(
                    apps,
                    requests_between(start.log, start.commit_num as int, self@.commit_num as int),
                    results,
                ),
                apps[0] == old(self).application(),
                apps.last() == self.application(),
            ensures
                self@.commit_num == target,
            decreases start.log.len() - self@.commit_num,
        {
            assert(self@.log.len() == self.log@.len());
            let len = self.log.len();
            let next = self.commit_num as u64 + 1;
            if next >= len as u64 {
                break ;
            }
            let index = next as usize;
            assert(self@.log[index as int] == self.log@[index as int]@);
            if self.log[index].commits.len() == 0 {
                break ;
            }
            let ghost done = requests_between(
                start.log,
                start.commit_num as int,
                self@.commit_num as int,
            );
            let ghost batch = start.log[index as int].requests;
            self.commit_num = self.commit_num + 1;
            let count = self.log[index].requests.len();
            proof {
                assert(batch.take(0) =~= Seq::empty());
                assert(done + batch.take(0) =~= done);
            }
            for i in 0..count
                invariant
                    start == old(self)@,
                    start.wf(),
                    begun == replica_action_views(old(actions)@),
                    index == self@.commit_num,
                    index < self.log@.len(),
                    count == self.log@[index as int].requests@.len(),
                    count == batch.len(),
                    batch == start.log[index as int].requests,
                    batch == request_views(self.log@[index as int].requests@),
                    self@ == (ReplicaState {
                        commit_num: self@.commit_num,
                        replies: self@.replies,
                        ..start
                    }),
                    results.len() == done.len() + i,
                    self@.replies == replied(
                        start.replies,
                        done + batch.take(i as int),
                        results,
                        start.view_num,
                        start.id,
                    ),
                    replica_action_views(actions@) == begun + reply_actions(
                        done + batch.take(i as int),
                        results,
                        start.view_num,
                        start.id,
                    ),
                    replies_grow(start.replies, self@.replies),
                    done == requests_between(start.log, start.commit_num as int, index - 1),
                    start.commit_num < index,
                    committed_upto(start.log, index as int) == committed_upto(
                        start.log,
                        start.commit_num as int,
                    ),
                    chained(apps, done + batch.take(i as int), results),
                    apps[0] == old(self).application(),
                    apps.last() == self.application(),
            {
                let ghost so_far = done + batch.take(i as int);
                let ghost listed = replica_action_views(actions@);
                let request = &self.log[index].requests[i];
                assert(batch[i as int] == request@);
                let result = match self.app.execute(request.op.0.as_slice()) {
                    Ok(result) => result,
                    Err(error) => {
                        proof {
                            let target = committed_upto(start.log, index as int);
                            let all = start.executable();
                            lemma_committed_upto_bounds(start.log, index as int);
                            lemma_requests_between_grows(
                                start.log,
                                start.commit_num as int,
                                index as int,
                                target,
                            );
                            let near = done + batch;
                            let met = results.len() as int;
                            let from = start.commit_num as int;
                            assert(requests_between(start.log, from, index as int) == near);
                            assert(all == requests_between(
                                start.log,
                                start.commit_num as int,
                                target,
                            ));
                            assert(all.take(near.len() as int) == near);
                            assert forall|j: int| 0 <= j < near.len() implies all[j] == near[j] by {
                                assert(all.take(near.len() as int)[j] == all[j]);
                            }
                            assert(near.take(met) =~= so_far);
                            assert(all.take(met) =~= so_far);
                            assert(near[met] == batch[i as int]);
                            assert(error == AppError);
                        }
                        return Err(Error::App);
                    },
                };
                let ghost earlier = results;
                let ghost gone = apps;
                proof {
                    results = results.push(result@);
                    apps = apps.push(self.app);
                }
                let action = remember_reply(
                    &mut self.replies,
                    request,
                    result,
                    self.view_num,
                    self.id,
                );
                actions.push(action);
                proof {
                    let now = done + batch.take(i + 1);
                    assert(batch[i as int] == request@);
                    assert(now =~= so_far.push(request@));
                    assert(now.drop_last() =~= so_far);
                    assert(results.drop_last() =~= earlier);
                    assert forall|j: int| 0 <= j < now.len() implies S::executed(
                        apps[j],
                        now[j].op,
                        apps[j + 1],
                        Ok(#[trigger] results[j]),
                    ) by {
                        if j < so_far.len() {
                            assert(earlier[j] == results[j]);
                            assert(gone[j] == apps[j] && gone[j + 1] == apps[j + 1]);
                        }
                    }
                    assert(replica_action_views(actions@) =~= listed.push(action@));
                    assert(reply_actions(now, results, start.view_num, start.id) =~= reply_actions(
                        so_far,
                        earlier,
                        start.view_num,
                        start.id,
                    ).push(action@));
                    assert(begun + reply_actions(now, results, start.view_num, start.id) =~= (begun
                        + reply_actions(so_far, earlier, start.view_num, start.id)).push(action@));
                }
            }
            proof {
                assert(batch.take(count as int) =~= batch);
            }
        }
        Ok(Ghost(results))
    }
}

/// The actions of a result, as plain values.
pub open spec fn outcome_views<A>(r: Result<Vec<ReplicaAction<A>>, Error>) -> Result<
    Seq<ReplicaActionView<A>>,
    Error,
> {
    match r {
        Ok(actions) => Ok(replica_action_views(actions@)),
        Err(error) => Err(error),
    }
}

impl<S: App, A: Copy> Replica<S, A> {
    /// Closes batches while this replica is the primary, requests wait, and
    /// fewer than `NUM_CONCURRENT_PRE_PREPARE` positions are ahead of the
    /// last executed one.
    fn close_batches(&mut self, actions: &mut Vec<ReplicaAction<A>>) -> (r: Result<(), Error>)
        requires
            old(self)@.wf(),
        ensures
            match old(self)@.close_batches() {
                Ok((state, closed)) => r is Ok && final(self)@ == state && replica_action_views(
                    final(actions)@,
                ) == replica_action_views(old(actions)@) + closed && state.wf(),
                Err(error) => r == Err::<(), Error>(error),
            },
            final(self)@.replies == old(self)@.replies,
            final(self)@.log == old(self)@.log,
            log_kept(old(self)@, final(self)@),
            final(self)@.wf(),
            final(self).application() == old(self).application(),
    {
        let ghost start = self@;
        let ghost begun = replica_action_views(actions@);
        let ghost mut closed: Seq<ReplicaActionView<A>> = Seq::empty();
        proof {
            assert(begun + closed =~= begun);
        }
        while self.is_primary() && self.requests.len() > 0 && (self.op_num as u64)
            < self.commit_num as u64 + NUM_CONCURRENT_PRE_PREPARE as u64
            invariant
                start == old(self)@,
                self.application() == old(self).application(),
                self@.wf(),
                self@.replies == start.replies,
                self@.log == start.log,
                log_kept(start, self@),
                replica_action_views(actions@) == begun + closed,
                match self@.close_batches() {
                    Ok((state, rest)) => start.close_batches() == Ok::<
                        (ReplicaState<A>, Seq<ReplicaActionView<A>>),
                        Error,
                    >((state, closed + rest)),
                    Err(error) => start.close_batches() == Err::<
                        (ReplicaState<A>, Seq<ReplicaActionView<A>>),
                        Error,
                    >(error),
                },
            decreases self@.batch_room(),
        {
            assert(self@.requests.len() == self.requests@.len());
            if self.op_num == u32::MAX {
                return Err(Error::Exhausted);
            }
            let ghost listed = replica_action_views(actions@);
            let action = self.close_batch();
            actions.push(action);
            proof {
                assert(replica_action_views(actions@) =~= listed.push(action@));
                let earlier = closed;
                closed = closed.push(action@);
                assert(begun + closed =~= (begun + earlier).push(action@));
                match self@.close_batches() {
                    Ok((state, rest)) => {
                        assert(closed + rest =~= earlier + (seq![action@] + rest));
                    },
                    Err(_) => {},
                }
            }
        }
        proof {
            assert(self@.requests.len() == self.requests@.len());
            assert(closed + Seq::empty() =~= closed);
        }
        Ok(())
    }

    /// Counts a verified commit. A vote against the proposal that the log
    /// holds is dropped, and a vote for a position without a proposal waits
    /// for it. When the vote completes a quorum for the digest of the
    /// proposal of a prepared position, the votes move into the log, the
    /// application is handed every request that can now be executed, in the
    /// order of the log, each is answered with what the application
    /// returned, and the primary closes the batch that this makes room for.
    pub fn insert_commit(&mut self, commit: Verifiable<Commit>) -> (r: Result<
        Vec<ReplicaAction<A>>,
        Error,
    >)
        requires
            old(self)@.wf(),
        ensures
            executed_as(
                outcome_views(r),
                old(self).application(),
                final(self).application(),
                final(self)@,
                old(self)@.executes(commit),
                |results: Seq<Seq<u8>>| old(self)@.insert_commit(commit, results),
            ),
            replies_grow(old(self)@.replies, final(self)@.replies),
            committed_by_quorum(old(self)@, final(self)@),
            log_kept(old(self)@, final(self)@),
            final(self)@.wf(),
            old(self)@.executes(commit).len() == 0 ==> final(self).application()
                == old(self).application(),
    {
        let mut actions: Vec<ReplicaAction<A>> = Vec::new();
        let ghost start = self@;
        let ghost step = |results: Seq<Seq<u8>>| start.insert_commit(commit, results);
        let op_num = commit.inner.op_num;
        let proposed = self.proposed(op_num);
        match &proposed {
            Some(digest) => {
                if !digest.same(&commit.inner.digest) {
                    proof {
                        assert(replica_action_views(actions@) =~= Seq::empty());
                        lemma_ran_nothing::<S, A>(self.application());
                        assert(step(Seq::empty()) == Ok::<
                            (ReplicaState<A>, Seq<ReplicaActionView<A>>),
                            Error,
                        >((self@, Seq::empty())));
                    }
                    return Ok(actions);
                }
            },
            None => {},
        }
        let count = self.commit_quorums.insert(op_num, commit.inner.replica_id, commit);
        assert(self@.log.len() == self.log@.len());
        if count < self.num_replica - self.num_faulty || proposed.is_none() {
            proof {
                assert(replica_action_views(actions@) =~= Seq::empty());
                lemma_ran_nothing::<S, A>(self.application());
                assert(step(Seq::empty()) == Ok::<
                    (ReplicaState<A>, Seq<ReplicaActionView<A>>),
                    Error,
                >((self@, Seq::empty())));
            }
            return Ok(actions);
        }
        let index = op_num as usize;
        assert(self@.log[index as int] == self.log@[index as int]@);
        if self.log[index].commits.len() > 0 {
            proof {
                lemma_ran_nothing::<S, A>(self.application());
                assert(step(Seq::empty()) == Err::<
                    (ReplicaState<A>, Seq<ReplicaActionView<A>>),
                    Error,
                >(Error::DuplicateLogInsertion));
            }
            return Err(Error::DuplicateLogInsertion);
        }
        if self.log[index].prepares.len() == 0 {
            proof {
                assert(replica_action_views(actions@) =~= Seq::empty());
                lemma_ran_nothing::<S, A>(self.application());
                assert(step(Seq::empty()) == Ok::<
                    (ReplicaState<A>, Seq<ReplicaActionView<A>>),
                    Error,
                >((self@, Seq::empty())));
            }
            return Ok(actions);
        }
        let ghost held = self@;
        let votes = self.commit_quorums.take(op_num);
        let ghost log = self@.log;
        self.log[index].commits = votes;
        proof {
            assert forall|i: int| 0 <= i < votes@.len() implies (
            #[trigger] votes@[i]).1.inner.vote_digest() == held.proposed(op_num) by {
                assert(held.commit_quorums[op_num].contains_key(votes@[i].0));
            }
            assert(self@.log =~= log.update(
                index as int,
                LogEntryView { commits: votes@, ..log[index as int] },
            ));
            assert(self@.commit_quorums =~= start.commit_quorums.remove(op_num));
            assert(self@ == start.count_commit(commit));
            assert(replica_action_views(actions@) =~= Seq::empty());
        }
        let ghost counted = self@;
        let results = match self.execute_committed(&mut actions) {
            Ok(results) => results,
            Err(error) => {
                return Err(error);
            },
        };
        let ghost replies = replica_action_views(actions@);
        proof {
            let sent = counted.execute(results@).1;
            assert(Seq::<ReplicaActionView<A>>::empty() + sent =~= sent);
        }
        let ghost executed = self@;
        match self.close_batches(&mut actions) {
            Ok(()) => {},
            Err(error) => {
                proof {
                    lemma_close_batches_error(executed);
                    assert(step(results@) == Err::<
                        (ReplicaState<A>, Seq<ReplicaActionView<A>>),
                        Error,
                    >(error));
                }
                return Err(error);
            },
        }
        proof {
            assert(step(results@) == Ok::<(ReplicaState<A>, Seq<ReplicaActionView<A>>), Error>(
                (self@, replica_action_views(actions@)),
            ));
        }
        Ok(actions)
    }
}

impl<S: App, A: Copy> Replica<S, A> {
    /// Handles this replica's own commit, now signed: sends it out, and
    /// counts it unless the position is committed already.
    pub fn on_signed_commit(&mut self, commit: Verifiable<Commit>) -> (r: Result<
        Vec<ReplicaAction<A>>,
        Error,
    >)
        requires
            old(self)@.wf(),
        ensures
            executed_as(
                outcome_views(r),
                old(self).application(),
                final(self).application(),
                final(self)@,
                old(self)@.executes_in_view(commit),
                |results: Seq<Seq<u8>>| old(self)@.on_signed_commit(commit, results),
            ),
            replies_grow(old(self)@.replies, final(self)@.replies),
            committed_by_quorum(old(self)@, final(self)@),
            log_kept(old(self)@, final(self)@),
            final(self)@.wf(),
            old(self)@.executes_in_view(commit).len() == 0 ==> final(self).application()
                == old(self).application(),
    {
        let mut actions: Vec<ReplicaAction<A>> = Vec::new();
        let ghost was = self.app;
        let ghost start = self@;
        let ghost step = |results: Seq<Seq<u8>>| start.on_signed_commit(commit, results);
        let ghost inner = |results: Seq<Seq<u8>>| start.insert_commit(commit, results);
        if commit.inner.view_num != self.view_num {
            proof {
                assert(replica_action_views(actions@) =~= Seq::empty());
                lemma_ran_nothing::<S, A>(self.application());
                assert(step(Seq::empty()) == Ok::<
                    (ReplicaState<A>, Seq<ReplicaActionView<A>>),
                    Error,
                >((self@, Seq::empty())));
            }
            return Ok(actions);
        }
        assert(self@.log.len() == self.log@.len());
        let len = self.log.len();
        if commit.inner.op_num as u64 >= len as u64 {
            proof {
                lemma_ran_nothing::<S, A>(self.application());
                assert(step(Seq::empty()) == Err::<
                    (ReplicaState<A>, Seq<ReplicaActionView<A>>),
                    Error,
                >(Error::MissingLogEntry));
            }
            return Err(Error::MissingLogEntry);
        }
        let index = commit.inner.op_num as usize;
        assert(self@.log[index as int] == self.log@[index as int]@);
        actions.push(ReplicaAction::BroadcastCommit(commit));
        let ghost sent = seq![ReplicaActionView::<A>::BroadcastCommit(commit)];
        assert(replica_action_views(actions@) =~= sent);
        if self.log[index].commits.len() == 0 {
            match self.insert_commit(commit) {
                Ok(mut more) => {
                    let ghost second = replica_action_views(more@);
                    actions.append(&mut more);
                    proof {
                        assert(replica_action_views(actions@) =~= sent + second);
                        let results = choose|results: Seq<Seq<u8>>|
                            ran(was, start.executes(commit), results, self.application())
                                && #[trigger] inner(
                                results,
                            ) == Ok::<(ReplicaState<A>, Seq<ReplicaActionView<A>>), Error>(
                                (self@, second),
                            );
                        assert(step(results) == Ok::<
                            (ReplicaState<A>, Seq<ReplicaActionView<A>>),
                            Error,
                        >((self@, sent + second)));
                    }
                },
                Err(error) => {
                    proof {
                        if error != Error::App {
                            let results = choose|results: Seq<Seq<u8>>|
                                ran(was, start.executes(commit), results, self.application())
                                && #[trigger] inner(
                                    results,
                                ) == Err::<(ReplicaState<A>, Seq<ReplicaActionView<A>>), Error>(
                                    error,
                                );
                            assert(step(results) == Err::<
                                (ReplicaState<A>, Seq<ReplicaActionView<A>>),
                                Error,
                            >(error));
                        }
                    }
                    return Err(error);
                },
            }
        } else {
            proof {
                lemma_ran_nothing::<S, A>(self.application());
                assert(step(Seq::empty()) == Ok::<
                    (ReplicaState<A>, Seq<ReplicaActionView<A>>),
                    Error,
                >((self@, sent)));
            }
        }
        Ok(actions)
    }

    /// Handles a commit from another replica. Only one vote per position is
    /// verified at a time: one that arrives meanwhile waits.
    pub fn on_commit(&mut self, commit: Verifiable<Commit>) -> (r: Result<
        Vec<ReplicaAction<A>>,
        Error,
    >)
        requires
            old(self)@.wf(),
        ensures
            match old(self)@.on_commit(commit) {
                Ok((state, actions)) => r is Ok && final(self)@ == state && replica_action_views(
                    r->Ok_0@,
                ) == actions && state.wf(),
                Err(error) => r == Err::<Vec<ReplicaAction<A>>, Error>(error),
            },
            log_kept(old(self)@, final(self)@),
            final(self)@.wf(),
            final(self).application() == old(self).application(),
    {
        let mut actions: Vec<ReplicaAction<A>> = Vec::new();
        let op_num = commit.inner.op_num;
        if self.pending_commits.defer(op_num, commit) {
            assert(replica_action_views(actions@) =~= Seq::empty());
            return Ok(actions);
        }
        match self.submit_commit(commit)? {
            Some(action) => {
                self.pending_commits.start(op_num);
                actions.push(action);
                assert(replica_action_views(actions@) =~= seq![
                    ReplicaActionView::VerifyCommit(commit),
                ]);
            },
            None => {
                assert(replica_action_views(actions@) =~= Seq::empty());
            },
        }
        Ok(actions)
    }

    /// Handles a verified commit: counts it, then has the next waiting vote
    /// for the same position verified, if one is worth it.
    pub fn on_verified_commit(&mut self, commit: Verifiable<Commit>) -> (r: Result<
        Vec<ReplicaAction<A>>,
        Error,
    >)
        requires
            old(self)@.wf(),
        ensures
            executed_as(
                outcome_views(r),
                old(self).application(),
                final(self).application(),
                final(self)@,
                old(self)@.executes_in_view(commit),
                |results: Seq<Seq<u8>>| old(self)@.on_verified_commit(commit, results),
            ),
            replies_grow(old(self)@.replies, final(self)@.replies),
            committed_by_quorum(old(self)@, final(self)@),
            log_kept(old(self)@, final(self)@),
            final(self)@.wf(),
            old(self)@.executes_in_view(commit).len() == 0 ==> final(self).application()
                == old(self).application(),
    {
        let ghost was = self.app;
        let ghost start = self@;
        let ghost step = |results: Seq<Seq<u8>>| start.on_verified_commit(commit, results);
        let ghost inner = |results: Seq<Seq<u8>>| start.insert_commit(commit, results);
        if commit.inner.view_num != self.view_num {
            let actions: Vec<ReplicaAction<A>> = Vec::new();
            proof {
                assert(replica_action_views(actions@) =~= Seq::empty());
                lemma_ran_nothing::<S, A>(self.application());
                assert(step(Seq::empty()) == Ok::<
                    (ReplicaState<A>, Seq<ReplicaActionView<A>>),
                    Error,
                >((self@, Seq::empty())));
            }
            return Ok(actions);
        }
        let op_num = commit.inner.op_num;
        let mut actions = match self.insert_commit(commit) {
            Ok(actions) => actions,
            Err(error) => {
                proof {
                    if error != Error::App {
                        let results = choose|results: Seq<Seq<u8>>|
                            ran(was, start.executes(commit), results, self.application())
                                && #[trigger] inner(
                                results,
                            ) == Err::<(ReplicaState<A>, Seq<ReplicaActionView<A>>), Error>(error);
                        assert(step(results) == Err::<
                            (ReplicaState<A>, Seq<ReplicaActionView<A>>),
                            Error,
                        >(error));
                    }
                }
                return Err(error);
            },
        };
        let ghost counted = self@;
        let ghost first = replica_action_views(actions@);
        let ghost results = choose|results: Seq<Seq<u8>>|
            ran(was, start.executes(commit), results, self.application())
                                && #[trigger] inner(results) == Ok::<
                (ReplicaState<A>, Seq<ReplicaActionView<A>>),
                Error,
            >((counted, first));
        loop
            invariant_except_break
                self@.drain_commits(op_num) == counted.drain_commits(op_num),
                replica_action_views(actions@) == first,
            invariant
                start == old(self)@,
                self@.wf(),
                self@.log == counted.log,
                self@.replies == counted.replies,
                replies_grow(start.replies, self@.replies),
                committed_by_quorum(start, self@),
                log_kept(start, self@),
                commit.inner.view_num == start.view_num,
                op_num == commit.inner.op_num,
                was == old(self).application(),
                ran(was, start.executes(commit), results, self.application()),
                start.insert_commit(commit, results) == Ok::<
                    (ReplicaState<A>, Seq<ReplicaActionView<A>>),
                    Error,
                >((counted, first)),
            ensures
                counted.drain_commits(op_num) matches Ok((state, second)) && self@ == state
                    && replica_action_views(actions@) == first + second,
            decreases self@.waiting_commits(op_num),
        {
            match self.pending_commits.next(op_num) {
                None => {
                    assert(first + Seq::empty() =~= first);
                    break ;
                },
                Some(vote) => {
                    match self.submit_commit(vote) {
                        Err(error) => {
                            proof {
                                let step = |results: Seq<Seq<u8>>|
                                    old(self)@.on_verified_commit(commit, results);
                                assert(step(results) == Err::<
                                    (ReplicaState<A>, Seq<ReplicaActionView<A>>),
                                    Error,
                                >(error));
                            }
                            return Err(error);
                        },
                        Ok(Some(action)) => {
                            actions.push(action);
                            assert(replica_action_views(actions@) =~= first + seq![
                                ReplicaActionView::VerifyCommit(vote),
                            ]);
                            break ;
                        },
                        Ok(None) => {},
                    }
                },
            }
        }
        proof {
            assert(step(results) == Ok::<(ReplicaState<A>, Seq<ReplicaActionView<A>>), Error>(
                (self@, replica_action_views(actions@)),
            ));
        }
        Ok(actions)
    }
}

impl<S: App, A: Copy> Replica<S, A> {
    /// The last log position whose requests have been executed.
    pub fn commit_num(&self) -> (r: u32)
        ensures
            r == self@.commit_num,
    {
        self.commit_num
    }

    /// The last log position that this replica has proposed for.
    pub fn op_num(&self) -> (r: u32)
        ensures
            r == self@.op_num,
    {
        self.op_num
    }

    /// The view that this replica is in.
    pub fn view_num(&self) -> (r: u32)
        ensures
            r == self@.view_num,
    {
        self.view_num
    }

    /// How many prepares the log holds for `op_num`; none where the
    /// position is not prepared or not in the log.
    pub fn prepares_at(&self, op_num: u32) -> (r: usize)
        ensures
            r == if op_num < self@.log.len() {
                self@.log[op_num as int].prepares.len()
            } else {
                0
            },
    {
        assert(self@.log.len() == self.log@.len());
        let len = self.log.len();
        if (op_num as u64) < len as u64 {
            assert(self@.log[op_num as int] == self.log@[op_num as int]@);
            self.log[op_num as usize].prepares.len()
        } else {
            0
        }
    }

    /// How many commits the log holds for `op_num`; none where the position
    /// is not committed or not in the log.
    pub fn commits_at(&self, op_num: u32) -> (r: usize)
        ensures
            r == if op_num < self@.log.len() {
                self@.log[op_num as int].commits.len()
            } else {
                0
            },
    {
        assert(self@.log.len() == self.log@.len());
        let len = self.log.len();
        if (op_num as u64) < len as u64 {
            assert(self@.log[op_num as int] == self.log@[op_num as int]@);
            self.log[op_num as usize].commits.len()
        } else {
            0
        }
    }

    /// The application.
    pub fn app(&self) -> (r: &S)
        ensures
            *r == self.application(),
    {
        &self.app
    }

    /// The application, as it stands after what it has executed.
    pub closed spec fn application(&self) -> S {
        self.app
    }
}

} // verus!
