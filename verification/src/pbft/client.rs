//! The client: sends a request to the primary, and takes for the result what
//! enough replicas agree on.
use crate::pbft::{Error, Reply, ReplyView};
use crate::util::{Payload, Request, RequestView, TimerId};
use std::collections::BTreeMap;
use vstd::prelude::*;

verus! {

/// How long a client waits for a result before it asks every replica, in
/// milliseconds.
pub const RESEND_AFTER_MILLIS: u64 = 1000;

/// Where a client sends a request.
#[derive(Debug, Clone, Copy, PartialEq, Eq, Structural)]
pub enum To {
    /// The replica with this number.
    Replica(u8),
    /// Every replica.
    All,
}

/// What a client wants done after it has handled an event.
#[derive(Debug, PartialEq, Eq)]
pub enum ClientAction<A> {
    /// Send the request.
    Send(To, Request<A>),
    /// Disarm the timer.
    Unset(TimerId),
    /// Hand the result to whoever invoked the operation, with the client's
    /// number.
    InvokeOk(u32, Payload),
}

/// A client's action as a plain value.
pub ghost enum ClientActionView<A> {
    Send(To, RequestView<A>),
    Unset(TimerId),
    InvokeOk(u32, Seq<u8>),
}

impl<A> View for ClientAction<A> {
    type V = ClientActionView<A>;

    open spec fn view(&self) -> ClientActionView<A> {
        match *self {
            ClientAction::Send(to, request) => ClientActionView::Send(to, request@),
            ClientAction::Unset(timer) => ClientActionView::Unset(timer),
            ClientAction::InvokeOk(id, result) => ClientActionView::InvokeOk(id, result@),
        }
    }
}

/// The views of a sequence of actions.
pub open spec fn client_action_views<A>(actions: Seq<ClientAction<A>>) -> Seq<ClientActionView<A>> {
    actions.map_values(|a: ClientAction<A>| a@)
}

/// The replies collected so far, as plain values.
pub open spec fn collected(replies: Map<u8, Reply>) -> Map<u8, ReplyView> {
    replies.map_values(|reply: Reply| reply@)
}

/// How many of the replicas below `bound` have replied with `result`.
pub open spec fn matching_below(replies: Map<u8, ReplyView>, result: Seq<u8>, bound: int) -> nat
    decreases bound,
{
    if bound <= 0 {
        0
    } else {
        let id = (bound - 1) as u8;
        if replies.contains_key(id) && replies[id].result == result {
            matching_below(replies, result, bound - 1) + 1
        } else {
            matching_below(replies, result, bound - 1)
        }
    }
}

/// How many replicas have replied with `result`.
pub open spec fn matching(replies: Map<u8, ReplyView>, result: Seq<u8>) -> nat {
    matching_below(replies, result, 256)
}

/// The operation under way.
pub struct ClientInvoke {
    op: Payload,
    resend_timer: TimerId,
    replies: BTreeMap<u8, Reply>,
}

/// The operation under way, as a plain value.
pub ghost struct InvokeView {
    pub op: Seq<u8>,
    pub resend_timer: TimerId,
    pub replies: Map<u8, ReplyView>,
}

impl View for ClientInvoke {
    type V = InvokeView;

    closed spec fn view(&self) -> InvokeView {
        InvokeView {
            op: self.op@,
            resend_timer: self.resend_timer,
            replies: collected(self.replies@),
        }
    }
}

/// The state of a client as a plain value.
pub ghost struct ClientState<A> {
    pub id: u32,
    pub addr: A,
    pub seq: u32,
    pub invoke: Option<InvokeView>,
    pub view_num: u32,
    pub num_replica: usize,
    pub num_faulty: usize,
}

impl<A> ClientState<A> {
    /// What `Client::new` promises and every handler keeps.
    pub open spec fn wf(self) -> bool {
        0 < self.num_replica
    }

    /// The request for the operation under way.
    pub open spec fn request(self) -> RequestView<A>
        recommends
            self.invoke is Some,
    {
        RequestView {
            client_id: self.id,
            client_addr: self.addr,
            seq: self.seq,
            op: self.invoke->Some_0.op,
        }
    }

    /// The replica that leads the view that the client believes in.
    pub open spec fn primary(self) -> u8 {
        ((self.view_num as int % self.num_replica as int) % 256) as u8
    }

    /// What invoking `op` comes to, with `resend_timer` armed for it.
    pub open spec fn on_invoke(self, op: Seq<u8>, resend_timer: TimerId) -> Result<
        (Self, Seq<ClientActionView<A>>),
        Error,
    > {
        if self.invoke is Some {
            Err(Error::ConcurrentInvocation)
        } else if self.seq == u32::MAX {
            Err(Error::Exhausted)
        } else {
            let invoking = ClientState {
                seq: (self.seq + 1) as u32,
                invoke: Some(InvokeView { op, resend_timer, replies: Map::empty() }),
                ..self
            };
            Ok(
                (
                    invoking,
                    seq![ClientActionView::Send(To::Replica(self.primary()), invoking.request())],
                ),
            )
        }
    }

    /// What a reply comes to. The operation is over when, with this reply,
    /// exactly one more than the number of faulty replicas have replied with
    /// the same result.
    pub open spec fn on_reply(self, reply: ReplyView) -> (Self, Seq<ClientActionView<A>>) {
        if reply.seq != self.seq || self.invoke is None {
            (self, Seq::empty())
        } else {
            let invoke = self.invoke->Some_0;
            let replies = invoke.replies.insert(reply.replica_id, reply);
            if matching(replies, reply.result) == self.num_faulty + 1 {
                (
                    ClientState { view_num: reply.view_num, invoke: None, ..self },
                    seq![
                        ClientActionView::Unset(invoke.resend_timer),
                        ClientActionView::InvokeOk(self.id, reply.result),
                    ],
                )
            } else {
                (
                    ClientState { invoke: Some(InvokeView { replies, ..invoke }), ..self },
                    Seq::empty(),
                )
            }
        }
    }
}

/// A client of the replicated application.
pub struct Client<A> {
    id: u32,
    addr: A,
    seq: u32,
    invoke: Option<ClientInvoke>,
    view_num: u32,
    num_replica: usize,
    num_faulty: usize,
}

impl<A> View for Client<A> {
    type V = ClientState<A>;

    closed spec fn view(&self) -> ClientState<A> {
        ClientState {
            id: self.id,
            addr: self.addr,
            seq: self.seq,
            invoke: match self.invoke {
                Some(invoke) => Some(invoke@),
                None => None,
            },
            view_num: self.view_num,
            num_replica: self.num_replica,
            num_faulty: self.num_faulty,
        }
    }
}

/// Counts the replies that carry `result`.
fn count_matching(replies: &BTreeMap<u8, Reply>, result: &Payload) -> (count: usize)
    ensures
        count == matching(collected(replies@), result@),
        count <= 256,
{
    let mut count: usize = 0;
    let mut bound: usize = 0;
    while bound < 256
        invariant
            bound <= 256,
            count <= bound,
            count == matching_below(collected(replies@), result@, bound as int),
        decreases 256 - bound,
    {
        let id = bound as u8;
        match replies.get(&id) {
            Some(reply) => {
                assert(collected(replies@)[id] == reply@);
                if reply.result.same(result) {
                    count = count + 1;
                }
            },
            None => {},
        }
        bound = bound + 1;
    }
    count
}

impl<A: Copy> Client<A> {
    /// A client that has not invoked anything yet.
    pub fn new(id: u32, addr: A, num_replica: usize, num_faulty: usize) -> (r: Self)
        requires
            0 < num_replica,
        ensures
            r@ == (ClientState {
                id,
                addr,
                seq: 0,
                invoke: None,
                view_num: 0,
                num_replica,
                num_faulty,
            }),
            r@.wf(),
    {
        Client { id, addr, seq: 0, invoke: None, view_num: 0, num_replica, num_faulty }
    }

    /// Whether an operation is under way.
    pub fn is_invoking(&self) -> (r: bool)
        ensures
            r == (self@.invoke is Some),
    {
        self.invoke.is_some()
    }

    /// The request for the operation under way, addressed to `dest`.
    pub fn do_send(&self, dest: To) -> (action: ClientAction<A>)
        requires
            self@.invoke is Some,
        ensures
            action@ == ClientActionView::Send(dest, self@.request()),
    {
        let op = match &self.invoke {
            Some(invoke) => invoke.op.clone(),
            None => unreached(),
        };
        ClientAction::Send(
            dest,
            Request { client_id: self.id, client_addr: self.addr, seq: self.seq, op },
        )
    }

    /// Starts an operation: the request goes to the primary. The caller has
    /// armed `resend_timer` to fire after `RESEND_AFTER_MILLIS`.
    pub fn on_invoke(&mut self, op: Payload, resend_timer: TimerId) -> (r: Result<
        Vec<ClientAction<A>>,
        Error,
    >)
        requires
            old(self)@.wf(),
        ensures
            match old(self)@.on_invoke(op@, resend_timer) {
                Ok((state, actions)) => r is Ok && final(self)@ == state && client_action_views(
                    r->Ok_0@,
                ) == actions && state.wf(),
                Err(error) => r == Err::<Vec<ClientAction<A>>, Error>(error) && final(self)@
                    == old(self)@,
            },
    {
        if self.invoke.is_some() {
            return Err(Error::ConcurrentInvocation);
        }
        if self.seq == u32::MAX {
            return Err(Error::Exhausted);
        }
        self.seq = self.seq + 1;
        let invoke = ClientInvoke { op, resend_timer, replies: BTreeMap::new() };
        assert(invoke@.replies =~= Map::empty());
        self.invoke = Some(invoke);
        let primary = ((self.view_num as usize % self.num_replica) % 256) as u8;
        let mut actions: Vec<ClientAction<A>> = Vec::new();
        actions.push(self.do_send(To::Replica(primary)));
        assert(client_action_views(actions@) =~= seq![
            ClientActionView::Send(To::Replica(primary), self@.request()),
        ]);
        Ok(actions)
    }

    /// Handles the resend timer: the request goes to every replica.
    pub fn on_resend(&self) -> (actions: Vec<ClientAction<A>>)
        requires
            self@.invoke is Some,
        ensures
            client_action_views(actions@) == seq![
                ClientActionView::Send(To::All, self@.request()),
            ],
    {
        let mut actions: Vec<ClientAction<A>> = Vec::new();
        actions.push(self.do_send(To::All));
        assert(client_action_views(actions@) =~= seq![
            ClientActionView::Send(To::All, self@.request()),
        ]);
        actions
    }

    /// Handles a reply: one for another request is ignored, one for the
    /// operation under way is collected, and completes the operation when it
    /// makes enough replicas agree on the result.
    pub fn on_reply(&mut self, reply: Reply) -> (actions: Vec<ClientAction<A>>)
        requires
            old(self)@.wf(),
        ensures
            final(self)@ == old(self)@.on_reply(reply@).0,
            client_action_views(actions@) == old(self)@.on_reply(reply@).1,
            final(self)@.wf(),
    {
        let mut actions: Vec<ClientAction<A>> = Vec::new();
        if reply.seq != self.seq {
            assert(client_action_views(actions@) =~= Seq::empty());
            return actions;
        }
        let mut invoke = match self.invoke.take() {
            Some(invoke) => invoke,
            None => {
                assert(client_action_views(actions@) =~= Seq::empty());
                return actions;
            },
        };
        let ghost before = invoke@;
        invoke.replies.insert(reply.replica_id, reply.clone());
        assert(invoke@.replies =~= before.replies.insert(reply.replica_id, reply@));
        let count = count_matching(&invoke.replies, &reply.result);
        if count >= 1 && count - 1 == self.num_faulty {
            self.view_num = reply.view_num;
            actions.push(ClientAction::Unset(invoke.resend_timer));
            actions.push(ClientAction::InvokeOk(self.id, reply.result));
            assert(client_action_views(actions@) =~= seq![
                ClientActionView::Unset(before.resend_timer),
                ClientActionView::InvokeOk(self.id, reply@.result),
            ]);
        } else {
            self.invoke = Some(invoke);
            assert(client_action_views(actions@) =~= Seq::empty());
        }
        actions
    }
}

} // verus!
