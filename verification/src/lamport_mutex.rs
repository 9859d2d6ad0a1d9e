//! Distributed mutual exclusion over causally ordered messages.
//!
//! A processor asks for the mutex by telling every peer, and holds it once
//! its request is the earliest that anybody has made and every peer has been
//! heard from since. The causal net between the processor and the wire gives
//! every message its clock.
use std::collections::{BTreeMap, VecDeque};
use vstd::prelude::*;

verus! {

/// A scalar logical clock.
pub type LamportClock = u64;

/// A logical clock: whatever it holds, it comes down to a scalar by which
/// the requests for the mutex are ordered.
pub trait Clock: View + Sized {
    /// The scalar that `clock` comes down to.
    spec fn reduced(clock: Self::V) -> LamportClock;

    /// Whether `reduce` can be called on `clock`.
    spec fn reducible(clock: Self::V) -> bool;

    fn reduce(&self) -> (r: LamportClock)
        requires
            Self::reducible(self@),
        ensures
            r == Self::reduced(self@),
    ;

    fn duplicate(&self) -> (r: Self)
        ensures
            r@ == self@,
    ;
}

/// The scalar clock as a clock.
#[derive(Debug, Clone, Copy, PartialEq, Eq, PartialOrd, Ord, Hash, Structural)]
pub struct Scalar(pub LamportClock);

impl View for Scalar {
    type V = LamportClock;

    open spec fn view(&self) -> LamportClock {
        self.0
    }
}

impl Clock for Scalar {
    open spec fn reduced(clock: LamportClock) -> LamportClock {
        clock
    }

    open spec fn reducible(clock: LamportClock) -> bool {
        true
    }

    fn reduce(&self) -> (r: LamportClock) {
        self.0
    }

    fn duplicate(&self) -> (r: Self) {
        *self
    }
}

/// What the processors tell each other. Each message names its sender.
#[derive(Debug, Clone, Copy, PartialEq, Eq, Hash, Structural)]
pub enum Message {
    /// The sender asks for the mutex.
    Request(u8),
    /// The sender has seen a request.
    Ack(u8),
    /// The sender gives the mutex up.
    Release(u8),
}

impl Message {
    /// Who sent the message.
    pub open spec fn sender(self) -> u8 {
        match self {
            Message::Request(id) => id,
            Message::Ack(id) => id,
            Message::Release(id) => id,
        }
    }

    /// Who sent the message.
    pub fn from(&self) -> (id: u8)
        ensures
            id == self.sender(),
    {
        match self {
            Message::Request(id) => *id,
            Message::Ack(id) => *id,
            Message::Release(id) => *id,
        }
    }
}

/// A message with the clock that the causal net gave it.
#[derive(Debug, PartialEq, Eq)]
pub struct Clocked<C> {
    pub clock: C,
    pub inner: Message,
}

/// The clocks of processors that hear each other through a replicated log:
/// the order of the log is the order of the messages, so the clock of a
/// message is its place in the log.
#[derive(Debug, Clone, Copy, PartialEq, Eq, Structural)]
pub struct Replicated {
    /// How many messages the log has delivered.
    pub delivered: LamportClock,
}

impl Replicated {
    /// Nothing delivered yet.
    pub fn new() -> (r: Self)
        ensures
            r.delivered == 0,
    {
        Replicated { delivered: 0 }
    }

    /// Gives the message that the log delivers next its clock: one more than
    /// the number of messages delivered before. There is none where the
    /// clocks have run out.
    pub fn deliver(&mut self, message: Message) -> (r: Option<Clocked<Scalar>>)
        ensures
            match r {
                Some(clocked) => old(self).delivered < LamportClock::MAX && final(self).delivered
                    == old(self).delivered + 1 && clocked.clock.0 == final(self).delivered
                    && clocked.inner == message,
                None => old(self).delivered == LamportClock::MAX && final(self).delivered
                    == old(self).delivered,
            },
    {
        if self.delivered == LamportClock::MAX {
            return None;
        }
        self.delivered = self.delivered + 1;
        Some(Clocked { clock: Scalar(self.delivered), inner: message })
    }
}

/// The application asks for the mutex.
#[derive(Debug, Clone, Copy, PartialEq, Eq, Structural)]
pub struct Request;

/// The application gives the mutex up.
#[derive(Debug, Clone, Copy, PartialEq, Eq, Structural)]
pub struct Release;

/// The application holds the mutex.
#[derive(Debug, Clone, Copy, PartialEq, Eq, Structural)]
pub struct RequestOk;

/// What a processor wants done after it has handled an event.
#[derive(Debug, Clone, Copy, PartialEq, Eq, Structural)]
pub enum ProcessorAction {
    /// Send the message to every processor, this one included.
    Broadcast(Message),
    /// Send the message to the processor with this number.
    Send(u8, Message),
    /// Tell the application that it holds the mutex.
    RequestOk,
}

/// Whether the request at `clock` by `id` is before the one at `other_clock`
/// by `other`: the earlier clock goes first, and the lower number where the
/// clocks are the same.
pub open spec fn before(clock: LamportClock, id: u8, other_clock: LamportClock, other: u8) -> bool {
    clock < other_clock || (clock == other_clock && id < other)
}

/// The state of a processor as a plain value.
pub ghost struct ProcessorState {
    pub id: u8,
    pub num_peer: usize,
    /// The highest clock seen from each processor.
    pub latest: Map<u8, LamportClock>,
    /// The requests that have not been released, each with its clock.
    pub requests: Map<u8, LamportClock>,
    /// Whether the application holds the mutex.
    pub granted: bool,
}

impl ProcessorState {
    /// The highest clock seen from `id`; zero where nothing was seen.
    pub open spec fn latest_of(self, id: u8) -> LamportClock {
        if self.latest.contains_key(id) {
            self.latest[id]
        } else {
            0
        }
    }

    /// Whether this processor's request is the earliest of all.
    pub open spec fn is_head(self) -> bool {
        &&& self.requests.contains_key(self.id)
        &&& forall|other: u8| #[trigger]
            self.requests.contains_key(other) && other != self.id ==> before(
                self.requests[self.id],
                self.id,
                self.requests[other],
                other,
            )
    }

    /// Whether every other processor has been heard from after `clock`.
    pub open spec fn heard_since(self, clock: LamportClock) -> bool {
        forall|other: u8|
            other < self.num_peer && other != self.id ==> #[trigger] self.latest_of(other) > clock
    }

    /// Whether the mutex is to be granted now: it is not held, this
    /// processor's request is the earliest, and every other processor has
    /// been heard from since.
    pub open spec fn grantable(self) -> bool {
        !self.granted && self.is_head() && self.heard_since(self.requests[self.id])
    }

    /// The state after the mutex has been granted where it is to be, and
    /// the notice to the application.
    pub open spec fn grant(self) -> (Self, Seq<ProcessorAction>) {
        if self.grantable() {
            (ProcessorState { granted: true, ..self }, seq![ProcessorAction::RequestOk])
        } else {
            (self, Seq::empty())
        }
    }

    /// What a message that arrived with the clock `clock` comes to.
    pub open spec fn on_recv(self, clock: LamportClock, message: Message) -> (
        Self,
        Seq<ProcessorAction>,
    ) {
        let from = message.sender();
        let heard = ProcessorState {
            latest: self.latest.insert(
                from,
                if self.latest_of(from) >= clock {
                    self.latest_of(from)
                } else {
                    clock
                },
            ),
            requests: match message {
                Message::Request(_) => self.requests.insert(from, clock),
                Message::Ack(_) => self.requests,
                Message::Release(_) => self.requests.remove(from),
            },
            granted: self.granted && !(message is Release && from == self.id),
            ..self
        };
        let acks = if message is Request && from != self.id {
            seq![ProcessorAction::Send(from, Message::Ack(self.id))]
        } else {
            Seq::empty()
        };
        (heard.grant().0, acks + heard.grant().1)
    }
}

/// Of two processors that know of the same requests, at most one has the
/// earliest: the order of the requests leaves no tie.
pub proof fn lemma_one_head(first: ProcessorState, second: ProcessorState)
    requires
        first.requests == second.requests,
        first.id != second.id,
    ensures
        !(first.is_head() && second.is_head()),
{
    if first.is_head() && second.is_head() {
        assert(first.requests.contains_key(second.id));
        assert(second.requests.contains_key(first.id));
    }
}

/// One participant in the mutual exclusion.
pub struct Processor {
    id: u8,
    num_peer: usize,
    latest: BTreeMap<u8, LamportClock>,
    requests: BTreeMap<u8, LamportClock>,
    granted: bool,
}

impl View for Processor {
    type V = ProcessorState;

    closed spec fn view(&self) -> ProcessorState {
        ProcessorState {
            id: self.id,
            num_peer: self.num_peer,
            latest: self.latest@,
            requests: self.requests@,
            granted: self.granted,
        }
    }
}

impl Processor {
    /// The processor `id` among `num_peer`, with nothing seen yet.
    pub fn new(id: u8, num_peer: usize) -> (r: Self)
        ensures
            r@ == (ProcessorState {
                id,
                num_peer,
                latest: Map::empty(),
                requests: Map::empty(),
                granted: false,
            }),
    {
        Processor {
            id,
            num_peer,
            latest: BTreeMap::new(),
            requests: BTreeMap::new(),
            granted: false,
        }
    }

    /// Whether the application holds the mutex.
    pub fn is_granted(&self) -> (r: bool)
        ensures
            r == self@.granted,
    {
        self.granted
    }

    /// Handles the application's request for the mutex: every processor is
    /// told.
    pub fn on_request(&self, request: Request) -> (actions: Vec<ProcessorAction>)
        ensures
            actions@ == seq![ProcessorAction::Broadcast(Message::Request(self@.id))],
    {
        let mut actions: Vec<ProcessorAction> = Vec::new();
        actions.push(ProcessorAction::Broadcast(Message::Request(self.id)));
        actions
    }

    /// Handles the application's release of the mutex: every processor is
    /// told.
    pub fn on_release(&self, release: Release) -> (actions: Vec<ProcessorAction>)
        ensures
            actions@ == seq![ProcessorAction::Broadcast(Message::Release(self@.id))],
    {
        let mut actions: Vec<ProcessorAction> = Vec::new();
        actions.push(ProcessorAction::Broadcast(Message::Release(self.id)));
        actions
    }

    /// Whether this processor's request is the earliest of all.
    fn is_head(&self) -> (r: bool)
        ensures
            r == self@.is_head(),
    {
        let own = match self.requests.get(&self.id) {
            Some(clock) => *clock,
            None => {
                return false;
            },
        };
        let mut other: usize = 0;
        while other < 256
            invariant
                other <= 256,
                self.requests@.contains_key(self.id),
                own == self.requests@[self.id],
                forall|j: u8| #[trigger]
                    self.requests@.contains_key(j) && j < other && j != self.id ==> before(
                        own,
                        self.id,
                        self.requests@[j],
                        j,
                    ),
            decreases 256 - other,
        {
            let j = other as u8;
            if j != self.id {
                match self.requests.get(&j) {
                    Some(clock) => {
                        if !(own < *clock || (own == *clock && self.id < j)) {
                            return false;
                        }
                    },
                    None => {},
                }
            }
            other = other + 1;
        }
        true
    }

    /// Whether every other processor has been heard from after `clock`.
    fn heard_since(&self, clock: LamportClock) -> (r: bool)
        ensures
            r == self@.heard_since(clock),
    {
        let mut other: usize = 0;
        while other < 256 && other < self.num_peer
            invariant
                other <= 256,
                forall|j: u8|
                    j < other && j < self.num_peer && j != self.id ==> #[trigger] self@.latest_of(j)
                        > clock,
            decreases 256 - other,
        {
            let j = other as u8;
            if j != self.id {
                let latest = match self.latest.get(&j) {
                    Some(latest) => *latest,
                    None => 0,
                };
                assert(latest == self@.latest_of(j));
                if latest <= clock {
                    return false;
                }
            }
            other = other + 1;
        }
        true
    }

    /// Grants the mutex where it is to be granted.
    fn grant(&mut self, actions: &mut Vec<ProcessorAction>)
        ensures
            final(self)@ == old(self)@.grant().0,
            final(actions)@ == old(actions)@ + old(self)@.grant().1,
    {
        if !self.granted && self.is_head() {
            let own = match self.requests.get(&self.id) {
                Some(clock) => *clock,
                None => unreached(),
            };
            if self.heard_since(own) {
                self.granted = true;
                actions.push(ProcessorAction::RequestOk);
                assert(actions@ =~= old(actions)@ + seq![ProcessorAction::RequestOk]);
                return ;
            }
        }
        assert(actions@ =~= old(actions)@ + Seq::empty());
    }

    /// Handles a message from the causal net: notes the request or the
    /// release that it brings, acknowledges a request of another processor,
    /// and grants the mutex where this makes it this processor's turn.
    pub fn on_recv<C: Clock>(&mut self, clocked: &Clocked<C>) -> (actions: Vec<ProcessorAction>)
        requires
            C::reducible(clocked.clock@),
        ensures
            final(self)@ == old(self)@.on_recv(C::reduced(clocked.clock@), clocked.inner).0,
            actions@ == old(self)@.on_recv(C::reduced(clocked.clock@), clocked.inner).1,
    {
        let clock = clocked.clock.reduce();
        let from = clocked.inner.from();
        let mut actions: Vec<ProcessorAction> = Vec::new();
        let seen = match self.latest.get(&from) {
            Some(seen) => *seen,
            None => 0,
        };
        self.latest.insert(from, if seen >= clock { seen } else { clock });
        match clocked.inner {
            Message::Request(_) => {
                self.requests.insert(from, clock);
                if from != self.id {
                    actions.push(ProcessorAction::Send(from, Message::Ack(self.id)));
                }
            },
            Message::Ack(_) => {},
            Message::Release(_) => {
                self.requests.remove(&from);
                if from == self.id {
                    self.granted = false;
                }
            },
        }
        self.grant(&mut actions);
        actions
    }
}

/// Where the causal net sends a message.
#[derive(Debug, Clone, Copy, PartialEq, Eq, Structural)]
pub enum To {
    /// Every processor, the sender included.
    All,
    /// The processor with this number.
    Processor(u8),
}

/// A request to the clock service: a clock that is after `prev` and after
/// `remote`. The service is asked for one clock at a time.
#[derive(Debug, PartialEq, Eq)]
pub struct Update<C> {
    pub prev: C,
    pub remote: C,
}

/// The clock service's answer.
#[derive(Debug, PartialEq, Eq)]
pub struct UpdateOk<C>(pub C);

/// Why the causal net gave up.
#[derive(Debug, Clone, Copy, PartialEq, Eq, Structural)]
pub enum Error {
    /// The net was started twice, or after it had taken up work.
    DuplicatedInit,
    /// A clock arrived that nobody had asked for.
    UnexpectedUpdateOk,
    /// The clocks have run out.
    Exhausted,
}

/// What the causal net has to do, one piece at a time.
#[derive(Debug, PartialEq, Eq)]
pub enum Work<C> {
    /// Get the first clock.
    Init,
    /// Give a message of the processor its clock, and send it.
    Outgoing(To, Message),
    /// Bring the clock up to a message from the wire, and hand the message
    /// to the processor.
    Incoming(Clocked<C>),
}

/// A piece of work as a plain value.
pub ghost enum WorkView<CV> {
    Init,
    Outgoing(To, Message),
    Incoming(CV, Message),
}

impl<C: View> View for Work<C> {
    type V = WorkView<C::V>;

    open spec fn view(&self) -> WorkView<C::V> {
        match *self {
            Work::Init => WorkView::Init,
            Work::Outgoing(to, message) => WorkView::Outgoing(to, message),
            Work::Incoming(clocked) => WorkView::Incoming(clocked.clock@, clocked.inner),
        }
    }
}

/// What the causal net wants done after it has handled an event.
#[derive(Debug, PartialEq, Eq)]
pub enum CausalAction<C> {
    /// Ask the clock service.
    Update(Update<C>),
    /// Put the message on the wire.
    Send(To, Clocked<C>),
    /// Hand the message to the processor.
    Deliver(Clocked<C>),
}

/// An action of the causal net as a plain value.
pub ghost enum CausalActionView<CV> {
    Update { prev: CV, remote: CV },
    Send(To, CV, Message),
    Deliver(CV, Message),
}

impl<C: View> View for CausalAction<C> {
    type V = CausalActionView<C::V>;

    open spec fn view(&self) -> CausalActionView<C::V> {
        match *self {
            CausalAction::Update(update) => CausalActionView::Update {
                prev: update.prev@,
                remote: update.remote@,
            },
            CausalAction::Send(to, clocked) => CausalActionView::Send(
                to,
                clocked.clock@,
                clocked.inner,
            ),
            CausalAction::Deliver(clocked) => CausalActionView::Deliver(
                clocked.clock@,
                clocked.inner,
            ),
        }
    }
}

/// The views of a sequence of actions.
pub open spec fn causal_action_views<C: View>(actions: Seq<CausalAction<C>>) -> Seq<
    CausalActionView<C::V>,
> {
    actions.map_values(|a: CausalAction<C>| a@)
}

/// The state of the causal net as a plain value.
pub ghost struct CausalState<CV> {
    /// The clock of the last thing that happened here.
    pub clock: CV,
    /// The work that waits for its clock.
    pub busy: Option<WorkView<CV>>,
    /// The work that waits for its turn.
    pub queue: Seq<WorkView<CV>>,
}

impl<CV> CausalState<CV> {
    /// The request for the clock of `work`.
    pub open spec fn update_for(self, work: WorkView<CV>) -> CausalActionView<CV> {
        CausalActionView::Update {
            prev: self.clock,
            remote: match work {
                WorkView::Incoming(clock, _) => clock,
                _ => self.clock,
            },
        }
    }

    /// What taking up `work` comes to: it waits where other work waits for
    /// its clock, and has the clock service asked otherwise.
    pub open spec fn submit(self, work: WorkView<CV>) -> (Self, Seq<CausalActionView<CV>>) {
        if self.busy is Some {
            (CausalState { queue: self.queue.push(work), ..self }, Seq::empty())
        } else {
            (CausalState { busy: Some(work), ..self }, seq![self.update_for(work)])
        }
    }

    /// What becomes of `work` once it has its clock: a message of the
    /// processor goes on the wire with it, a message from the wire goes to
    /// the processor.
    pub open spec fn finish(work: WorkView<CV>, clock: CV) -> Seq<CausalActionView<CV>> {
        match work {
            WorkView::Init => Seq::empty(),
            WorkView::Outgoing(to, message) => seq![CausalActionView::Send(to, clock, message)],
            WorkView::Incoming(remote, message) => seq![
                CausalActionView::Deliver(remote, message),
            ],
        }
    }

    /// What a clock from the clock service comes to: the work that waited
    /// for it is finished, and the work that waits first for its turn is
    /// taken up.
    pub open spec fn on_update_ok(self, clock: CV) -> Result<
        (Self, Seq<CausalActionView<CV>>),
        Error,
    > {
        match self.busy {
            None => Err(Error::UnexpectedUpdateOk),
            Some(work) => {
                let ticked = CausalState { clock, busy: None, ..self };
                if self.queue.len() > 0 {
                    Ok(
                        (
                            CausalState {
                                clock,
                                busy: Some(self.queue[0]),
                                queue: self.queue.skip(1),
                            },
                            Self::finish(work, clock).push(ticked.update_for(self.queue[0])),
                        ),
                    )
                } else {
                    Ok((ticked, Self::finish(work, clock)))
                }
            },
        }
    }
}

/// The net between a processor and the wire.
pub struct Causal<C> {
    clock: C,
    busy: Option<Work<C>>,
    queue: VecDeque<Work<C>>,
}

impl<C: View> View for Causal<C> {
    type V = CausalState<C::V>;

    closed spec fn view(&self) -> CausalState<C::V> {
        CausalState {
            clock: self.clock@,
            busy: match self.busy {
                Some(work) => Some(work@),
                None => None,
            },
            queue: self.queue@.map_values(|work: Work<C>| work@),
        }
    }
}

impl<C: Clock> Causal<C> {
    /// A net whose clock is `clock`, with nothing to do yet.
    pub fn new(clock: C) -> (r: Self)
        ensures
            r@ == (CausalState::<C::V> { clock: clock@, busy: None, queue: Seq::empty() }),
    {
        let r = Causal { clock, busy: None, queue: VecDeque::new() };
        assert(r@.queue =~= Seq::empty());
        r
    }

    /// Takes up a piece of work.
    fn submit(&mut self, work: Work<C>) -> (actions: Vec<CausalAction<C>>)
        ensures
            final(self)@ == old(self)@.submit(work@).0,
            causal_action_views(actions@) == old(self)@.submit(work@).1,
    {
        let mut actions: Vec<CausalAction<C>> = Vec::new();
        if self.busy.is_some() {
            self.queue.push_back(work);
            assert(self@.queue =~= old(self)@.queue.push(work@));
            assert(causal_action_views(actions@) =~= Seq::empty());
        } else {
            let update = self.update_for(&work);
            self.busy = Some(work);
            actions.push(CausalAction::Update(update));
            assert(causal_action_views(actions@) =~= seq![old(self)@.update_for(work@)]);
        }
        actions
    }

    /// The request for the clock of `work`.
    fn update_for(&self, work: &Work<C>) -> (update: Update<C>)
        ensures
            CausalAction::Update(update)@ == self@.update_for(work@),
    {
        Update {
            prev: self.clock.duplicate(),
            remote: match work {
                Work::Incoming(clocked) => clocked.clock.duplicate(),
                _ => self.clock.duplicate(),
            },
        }
    }

    /// Starts the net: asks for the first clock.
    pub fn on_init(&mut self) -> (r: Result<Vec<CausalAction<C>>, Error>)
        ensures
            if old(self)@.busy is Some {
                r == Err::<Vec<CausalAction<C>>, Error>(Error::DuplicatedInit) && final(self)@
                    == old(self)@
            } else {
                r is Ok && final(self)@ == old(self)@.submit(WorkView::Init).0
                    && causal_action_views(r->Ok_0@) == old(self)@.submit(WorkView::Init).1
            },
    {
        if self.busy.is_some() {
            return Err(Error::DuplicatedInit);
        }
        Ok(self.submit(Work::Init))
    }

    /// Handles a message that the processor wants sent.
    pub fn on_send(&mut self, to: To, message: Message) -> (actions: Vec<CausalAction<C>>)
        ensures
            final(self)@ == old(self)@.submit(WorkView::Outgoing(to, message)).0,
            causal_action_views(actions@) == old(self)@.submit(WorkView::Outgoing(to, message)).1,
    {
        self.submit(Work::Outgoing(to, message))
    }

    /// Handles a message from the wire.
    pub fn on_recv(&mut self, clocked: Clocked<C>) -> (actions: Vec<CausalAction<C>>)
        ensures
            final(self)@ == old(self)@.submit(WorkView::Incoming(clocked.clock@, clocked.inner)).0,
            causal_action_views(actions@) == old(self)@.submit(
                WorkView::Incoming(clocked.clock@, clocked.inner),
            ).1,
    {
        self.submit(Work::Incoming(clocked))
    }

    /// Handles a clock from the clock service.
    pub fn on_update_ok(&mut self, update_ok: UpdateOk<C>) -> (r: Result<
        Vec<CausalAction<C>>,
        Error,
    >)
        ensures
            match old(self)@.on_update_ok(update_ok.0@) {
                Ok((state, actions)) => r is Ok && final(self)@ == state && causal_action_views(
                    r->Ok_0@,
                ) == actions,
                Err(error) => r == Err::<Vec<CausalAction<C>>, Error>(error) && final(self)@
                    == old(self)@,
            },
    {
        let work = match self.busy.take() {
            Some(work) => work,
            None => {
                return Err(Error::UnexpectedUpdateOk);
            },
        };
        let mut actions: Vec<CausalAction<C>> = Vec::new();
        let ghost finished = CausalState::<C::V>::finish(work@, update_ok.0@);
        match work {
            Work::Init => {},
            Work::Outgoing(to, message) => {
                let clocked = Clocked { clock: update_ok.0.duplicate(), inner: message };
                actions.push(CausalAction::Send(to, clocked));
            },
            Work::Incoming(clocked) => {
                actions.push(CausalAction::Deliver(clocked));
            },
        }
        assert(causal_action_views(actions@) =~= finished);
        self.clock = update_ok.0;
        let ghost ticked = self@;
        match self.queue.pop_front() {
            Some(next) => {
                assert(self@.queue =~= old(self)@.queue.skip(1));
                let update = self.update_for(&next);
                self.busy = Some(next);
                actions.push(CausalAction::Update(update));
                assert(causal_action_views(actions@) =~= finished.push(
                    ticked.update_for(old(self)@.queue[0]),
                ));
            },
            None => {},
        }
        Ok(actions)
    }
}

/// The clock service for scalar clocks: the next clock is one more than the
/// later of the two that it is given.
#[derive(Debug, Clone, Copy, PartialEq, Eq, Structural)]
pub struct Lamport;

impl Lamport {
    /// Answers a request for a clock, unless the clocks have run out.
    pub fn send(&mut self, update: Update<Scalar>) -> (r: Result<UpdateOk<Scalar>, Error>)
        ensures
            match r {
                Ok(update_ok) => update_ok.0.0 == later(update.prev.0, update.remote.0) + 1,
                Err(error) => error == Error::Exhausted && later(update.prev.0, update.remote.0)
                    == LamportClock::MAX,
            },
    {
        let later = if update.prev.0 >= update.remote.0 {
            update.prev.0
        } else {
            update.remote.0
        };
        if later == LamportClock::MAX {
            return Err(Error::Exhausted);
        }
        Ok(UpdateOk(Scalar(later + 1)))
    }
}

/// The later of two clocks.
pub open spec fn later(a: LamportClock, b: LamportClock) -> LamportClock {
    if a >= b {
        a
    } else {
        b
    }
}

} // verus!
