//! Sources of operations, and the loop that feeds them to a client one at a
//! time.
use crate::util::Payload;
use std::collections::VecDeque;
use std::sync::atomic::AtomicU32;
use std::sync::Arc;
use std::time::{Duration, Instant};
use vstd::prelude::*;

verus! {

/// `std::time::Instant`: a point in time, as the monotonic clock of the
/// machine tells it. Nothing is known of what a value holds.
#[verifier::external_type_specification]
#[verifier::external_body]
pub struct ExInstant(Instant);

/// A result that is not the one that was expected.
#[derive(Debug, PartialEq, Eq)]
pub struct UnexpectedResult {
    pub expect: Payload,
    pub actual: Payload,
}

/// Why a workload or the loop around it gave up.
#[derive(Debug, PartialEq, Eq)]
pub enum Error {
    /// The workload had no operation to start with.
    NotEnoughOp,
    /// The loop was started twice.
    DuplicatedLaunch,
    /// A result arrived while no operation was under way.
    MissingWorkloadAttach,
    /// An operation was asked for before the result of the one before it.
    OnlyCloseLoop,
    /// A result arrived that no operation was waiting for.
    MissingInvocation,
    /// A result was not the expected one.
    Unexpected(UnexpectedResult),
}

/// An error as a plain value.
pub ghost enum ErrorView {
    NotEnoughOp,
    DuplicatedLaunch,
    MissingWorkloadAttach,
    OnlyCloseLoop,
    MissingInvocation,
    Unexpected { expect: Seq<u8>, actual: Seq<u8> },
}

impl View for Error {
    type V = ErrorView;

    open spec fn view(&self) -> ErrorView {
        match *self {
            Error::NotEnoughOp => ErrorView::NotEnoughOp,
            Error::DuplicatedLaunch => ErrorView::DuplicatedLaunch,
            Error::MissingWorkloadAttach => ErrorView::MissingWorkloadAttach,
            Error::OnlyCloseLoop => ErrorView::OnlyCloseLoop,
            Error::MissingInvocation => ErrorView::MissingInvocation,
            Error::Unexpected(unexpected) => ErrorView::Unexpected {
                expect: unexpected.expect@,
                actual: unexpected.actual@,
            },
        }
    }
}

/// What a workload hands out: the next operation and what to give back with
/// its result, nothing when it is exhausted, or an error.
pub type Next<T> = Result<Option<(Payload, T)>, Error>;

/// A source of operations that is told the result of each.
pub trait Workload: Sized {
    /// What comes with an operation and goes back with its result.
    type Attach;

    /// What `next_op` may do: the workload before and after, and what it
    /// hands out.
    spec fn next_op_post(before: Self, after: Self, next: Next<Self::Attach>) -> bool;

    fn next_op(&mut self) -> (next: Next<Self::Attach>)
        ensures
            Self::next_op_post(*old(self), *final(self), next),
    ;

    /// What `on_result` may do: the workload before and after, the result
    /// and what came with the operation, and whether the result is taken.
    spec fn on_result_post(
        before: Self,
        result: Payload,
        attach: Self::Attach,
        after: Self,
        taken: Result<(), Error>,
    ) -> bool;

    fn on_result(&mut self, result: Payload, attach: Self::Attach) -> (taken: Result<(), Error>)
        ensures
            Self::on_result_post(*old(self), result, attach, *final(self), taken),
    ;
}

/// The operations of a queue, from its front. Results are of no interest.
#[derive(Debug)]
pub struct Iter(pub VecDeque<Payload>);

impl Workload for Iter {
    type Attach = ();

    open spec fn next_op_post(before: Self, after: Self, next: Next<()>) -> bool {
        if before.0@.len() > 0 {
            next == Ok::<Option<(Payload, ())>, Error>(Some((before.0@[0], ()))) && after.0@
                == before.0@.skip(1)
        } else {
            next == Ok::<Option<(Payload, ())>, Error>(None) && after.0@ == before.0@
        }
    }

    fn next_op(&mut self) -> (next: Next<()>) {
        match self.0.pop_front() {
            Some(op) => {
                assert(self.0@ =~= old(self).0@.skip(1));
                Ok(Some((op, ())))
            },
            None => Ok(None),
        }
    }

    open spec fn on_result_post(
        before: Self,
        result: Payload,
        attach: (),
        after: Self,
        taken: Result<(), Error>,
    ) -> bool {
        taken is Ok && after == before
    }

    fn on_result(&mut self, result: Payload, attach: ()) -> (taken: Result<(), Error>) {
        Ok(())
    }
}

/// A workload whose every operation is timed, from when it is handed out to
/// when its result comes back.
#[derive(Debug)]
pub struct OpLatency<W> {
    pub inner: W,
    pub latencies: Vec<Duration>,
}

/// Reads the clock, with `Instant::now`. Nothing is claimed of the time that
/// comes back: it is whatever the machine says.
#[verifier::external_body]
fn now() -> Instant {
    Instant::now()
}

/// Reads how much time has passed since `start`, with `Instant::elapsed`.
/// Nothing is claimed of the duration that comes back.
#[verifier::external_body]
fn elapsed(start: &Instant) -> Duration {
    start.elapsed()
}

impl<W> OpLatency<W> {
    /// `inner` with no operation timed yet.
    pub fn new(inner: W) -> (r: Self)
        ensures
            r.inner == inner,
            r.latencies@.len() == 0,
    {
        OpLatency { inner, latencies: Vec::new() }
    }
}

impl<W: Workload> Workload for OpLatency<W> {
    type Attach = (Instant, W::Attach);

    open spec fn next_op_post(before: Self, after: Self, next: Next<(Instant, W::Attach)>) -> bool {
        &&& after.latencies == before.latencies
        &&& exists|inner: Next<W::Attach>| #[trigger]
            W::next_op_post(before.inner, after.inner, inner) && match inner {
                Ok(Some((op, attach))) => next matches Ok(Some((timed, (_, timed_attach))))
                    && timed == op && timed_attach == attach,
                Ok(None) => next == Ok::<Option<(Payload, (Instant, W::Attach))>, Error>(None),
                Err(error) => next == Err::<Option<(Payload, (Instant, W::Attach))>, Error>(error),
            }
    }

    fn next_op(&mut self) -> (next: Next<(Instant, W::Attach)>) {
        let inner = self.inner.next_op();
        let next = timed::<W>(inner);
        assert(W::next_op_post(old(self).inner, self.inner, inner));
        next
    }

    open spec fn on_result_post(
        before: Self,
        result: Payload,
        attach: (Instant, W::Attach),
        after: Self,
        taken: Result<(), Error>,
    ) -> bool {
        &&& after.latencies@.len() == before.latencies@.len() + 1
        &&& after.latencies@.take(before.latencies@.len() as int) == before.latencies@
        &&& W::on_result_post(before.inner, result, attach.1, after.inner, taken)
    }

    fn on_result(&mut self, result: Payload, attach: (Instant, W::Attach)) -> (taken: Result<
        (),
        Error,
    >) {
        let (start, attach) = attach;
        self.latencies.push(elapsed(&start));
        assert(self.latencies@.take(old(self).latencies@.len() as int) =~= old(self).latencies@);
        self.inner.on_result(result, attach)
    }
}

/// Stamps what the timed workload has handed out with the time.
fn timed<W: Workload>(inner: Next<W::Attach>) -> (next: Next<(Instant, W::Attach)>)
    ensures
        match inner {
            Ok(Some((op, attach))) => next matches Ok(Some((timed, (_, timed_attach)))) && timed
                == op && timed_attach == attach,
            Ok(None) => next == Ok::<Option<(Payload, (Instant, W::Attach))>, Error>(None),
            Err(error) => next == Err::<Option<(Payload, (Instant, W::Attach))>, Error>(error),
        },
{
    match inner {
        Ok(Some((op, attach))) => Ok(Some((op, (now(), attach)))),
        Ok(None) => Ok(None),
        Err(error) => Err(error),
    }
}

/// A workload whose every operation is kept together with its result.
#[derive(Debug)]
pub struct Recorded<W> {
    pub inner: W,
    pub invocations: Vec<(Payload, Payload)>,
}

impl<W> Recorded<W> {
    /// `inner` with nothing kept yet.
    pub fn new(inner: W) -> (r: Self)
        ensures
            r.inner == inner,
            r.invocations@.len() == 0,
    {
        Recorded { inner, invocations: Vec::new() }
    }
}

/// Hands on what the recorded workload has handed out, with a copy of the
/// operation to keep for its result.
fn kept<T>(inner: Next<T>) -> (next: Next<(Payload, T)>)
    ensures
        match inner {
            Ok(Some((op, attach))) => next matches Ok(Some((copy, (source, kept_attach))))
                && copy@ == op@ && source == op && kept_attach == attach,
            Ok(None) => next == Ok::<Option<(Payload, (Payload, T))>, Error>(None),
            Err(error) => next == Err::<Option<(Payload, (Payload, T))>, Error>(error),
        },
{
    match inner {
        Ok(Some((op, attach))) => Ok(Some((op.clone(), (op, attach)))),
        Ok(None) => Ok(None),
        Err(error) => Err(error),
    }
}

impl<W: Workload> Workload for Recorded<W> {
    type Attach = (Payload, W::Attach);

    open spec fn next_op_post(before: Self, after: Self, next: Next<(Payload, W::Attach)>) -> bool {
        &&& after.invocations == before.invocations
        &&& exists|inner: Next<W::Attach>| #[trigger]
            W::next_op_post(before.inner, after.inner, inner) && match inner {
                Ok(Some((op, attach))) => next matches Ok(Some((copy, (source, kept_attach))))
                    && copy@ == op@ && source == op && kept_attach == attach,
                Ok(None) => next == Ok::<Option<(Payload, (Payload, W::Attach))>, Error>(None),
                Err(error) => next == Err::<Option<(Payload, (Payload, W::Attach))>, Error>(error),
            }
    }

    fn next_op(&mut self) -> (next: Next<(Payload, W::Attach)>) {
        let inner = self.inner.next_op();
        let next = kept::<W::Attach>(inner);
        assert(W::next_op_post(old(self).inner, self.inner, inner));
        next
    }

    open spec fn on_result_post(
        before: Self,
        result: Payload,
        attach: (Payload, W::Attach),
        after: Self,
        taken: Result<(), Error>,
    ) -> bool {
        &&& after.invocations@.len() == before.invocations@.len() + 1
        &&& after.invocations@.take(before.invocations@.len() as int) == before.invocations@
        &&& after.invocations@.last().0 == attach.0
        &&& after.invocations@.last().1@ == result@
        &&& W::on_result_post(before.inner, result, attach.1, after.inner, taken)
    }

    fn on_result(&mut self, result: Payload, attach: (Payload, W::Attach)) -> (taken: Result<
        (),
        Error,
    >) {
        let (op, attach) = attach;
        self.invocations.push((op, result.clone()));
        let ghost kept = old(self).invocations@;
        assert(self.invocations@.take(kept.len() as int) =~= kept);
        self.inner.on_result(result, attach)
    }
}

/// A workload cut off after a number of operations. Copies of it count
/// together.
#[derive(Debug)]
pub struct Total<W> {
    inner: W,
    remain_count: Arc<AtomicU32>,
}

impl<W: Clone> Clone for Total<W> {
    fn clone(&self) -> (r: Self) {
        Total { inner: self.inner.clone(), remain_count: self.remain_count.clone() }
    }
}

/// One less than `count`, while there is any.
pub fn one_less(count: u32) -> (r: Option<u32>)
    ensures
        r == if count == 0 {
            None::<u32>
        } else {
            Some((count - 1) as u32)
        },
{
    if count == 0 {
        None
    } else {
        Some(count - 1)
    }
}

/// Takes one from the count, unless it has run out, and says whether it
/// did: `AtomicU32::fetch_update` with `one_less`, sequentially consistent.
/// Nothing is claimed of the answer: other holders of the count take from it
/// at any time.
#[verifier::external_body]
fn take_one(remain_count: &Arc<AtomicU32>) -> bool {
    remain_count.fetch_update(
        std::sync::atomic::Ordering::SeqCst,
        std::sync::atomic::Ordering::SeqCst,
        one_less,
    ).is_ok()
}

impl<W> Total<W> {
    /// `inner`, cut off after `count` operations.
    pub fn new(inner: W, count: u32) -> (r: Self)
        ensures
            r.workload() == inner,
    {
        Total { inner, remain_count: Arc::new(AtomicU32::new(count)) }
    }

    /// The workload that is cut off.
    pub closed spec fn workload(self) -> W {
        self.inner
    }
}

impl<W: Workload> Total<W> {
    /// Hands out the next operation once the count has been asked for one:
    /// nothing where the count had run out, and what the workload hands out
    /// where one was taken from it.
    pub fn next_op_after(&mut self, taken: bool) -> (next: Next<W::Attach>)
        ensures
            if taken {
                W::next_op_post(old(self).workload(), final(self).workload(), next)
            } else {
                next == Ok::<Option<(Payload, W::Attach)>, Error>(None) && final(self).workload()
                    == old(self).workload()
            },
    {
        if !taken {
            return Ok(None);
        }
        self.inner.next_op()
    }
}

impl<W: Workload> Workload for Total<W> {
    type Attach = W::Attach;

    open spec fn next_op_post(before: Self, after: Self, next: Next<W::Attach>) -> bool {
        ||| next == Ok::<Option<(Payload, W::Attach)>, Error>(None) && after.workload()
            == before.workload()
        ||| W::next_op_post(before.workload(), after.workload(), next)
    }

    fn next_op(&mut self) -> (next: Next<W::Attach>) {
        let taken = take_one(&self.remain_count);
        self.next_op_after(taken)
    }

    open spec fn on_result_post(
        before: Self,
        result: Payload,
        attach: W::Attach,
        after: Self,
        taken: Result<(), Error>,
    ) -> bool {
        W::on_result_post(before.workload(), result, attach, after.workload(), taken)
    }

    fn on_result(&mut self, result: Payload, attach: W::Attach) -> (taken: Result<(), Error>) {
        self.inner.on_result(result, attach)
    }
}

/// Operations with the results that they must have, from the front of a
/// queue. The result of an operation has to be in before the next operation
/// is asked for.
#[derive(Debug)]
pub struct Check {
    inner: VecDeque<(Payload, Payload)>,
    expected_result: Option<Payload>,
}

impl Check {
    /// The operations of `inner`, each with the result that it must have.
    pub fn new(inner: VecDeque<(Payload, Payload)>) -> (r: Self)
        ensures
            r.remaining() == inner@,
            r.expected() is None,
    {
        Check { inner, expected_result: None }
    }

    /// The operations that have not been handed out, each with the result
    /// that it must have.
    pub closed spec fn remaining(self) -> Seq<(Payload, Payload)> {
        self.inner@
    }

    /// The result that the operation under way must have.
    pub closed spec fn expected(self) -> Option<Payload> {
        self.expected_result
    }
}

impl Workload for Check {
    type Attach = ();

    open spec fn next_op_post(before: Self, after: Self, next: Next<()>) -> bool {
        if before.remaining().len() == 0 {
            &&& next == Ok::<Option<(Payload, ())>, Error>(None)
            &&& after.remaining() == before.remaining()
            &&& after.expected() == before.expected()
        } else {
            &&& after.remaining() == before.remaining().skip(1)
            &&& after.expected() == Some(before.remaining()[0].1)
            &&& if before.expected() is Some {
                next == Err::<Option<(Payload, ())>, Error>(Error::OnlyCloseLoop)
            } else {
                next == Ok::<Option<(Payload, ())>, Error>(Some((before.remaining()[0].0, ())))
            }
        }
    }

    fn next_op(&mut self) -> (next: Next<()>) {
        let (op, expected_result) = match self.inner.pop_front() {
            Some(pair) => pair,
            None => {
                return Ok(None);
            },
        };
        assert(self.inner@ =~= old(self).inner@.skip(1));
        let under_way = self.expected_result.is_some();
        self.expected_result = Some(expected_result);
        if under_way {
            return Err(Error::OnlyCloseLoop);
        }
        Ok(Some((op, ())))
    }

    open spec fn on_result_post(
        before: Self,
        result: Payload,
        attach: (),
        after: Self,
        taken: Result<(), Error>,
    ) -> bool {
        &&& after.remaining() == before.remaining()
        &&& after.expected() is None
        &&& match before.expected() {
            None => taken == Err::<(), Error>(Error::MissingInvocation),
            Some(expected) => if result@ == expected@ {
                taken is Ok
            } else {
                taken == Err::<(), Error>(
                    Error::Unexpected(UnexpectedResult { expect: expected, actual: result }),
                )
            },
        }
    }

    fn on_result(&mut self, result: Payload, attach: ()) -> (taken: Result<(), Error>) {
        let expected = match self.expected_result.take() {
            Some(expected) => expected,
            None => {
                return Err(Error::MissingInvocation);
            },
        };
        if result.same(&expected) {
            Ok(())
        } else {
            Err(Error::Unexpected(UnexpectedResult { expect: expected, actual: result }))
        }
    }
}

/// The request to a client to invoke an operation.
#[derive(Debug, PartialEq, Eq, Hash)]
pub struct Invoke(pub Payload);

/// The result of an operation, with the number of the client that invoked
/// it.
pub type InvokeOk = (u32, Payload);

/// The notice that the workload is exhausted.
#[derive(Debug, Clone, Copy, PartialEq, Eq, Structural)]
pub struct Stop;

/// What the loop wants done after a result.
#[derive(Debug, PartialEq, Eq)]
pub enum Then {
    /// Invoke the next operation.
    Invoke(Invoke),
    /// Stop: there is no further operation.
    Stop(Stop),
}

/// The loop that feeds the operations of a workload to a client, each after
/// the result of the one before.
#[derive(Debug)]
pub struct CloseLoop<W: Workload> {
    workload: W,
    workload_attach: Option<W::Attach>,
    done: bool,
}

impl<W: Workload> CloseLoop<W> {
    /// The workload.
    pub closed spec fn workload(self) -> W {
        self.workload
    }

    /// What came with the operation under way.
    pub closed spec fn attach(self) -> Option<W::Attach> {
        self.workload_attach
    }

    /// Whether the workload is exhausted.
    pub closed spec fn done(self) -> bool {
        self.done
    }

    /// No operation is under way once the workload is exhausted.
    pub open spec fn wf(self) -> bool {
        self.done() ==> self.attach() is None
    }

    /// A loop that has not started.
    pub fn new(workload: W) -> (r: Self)
        ensures
            r.workload() == workload,
            r.attach() is None,
            !r.done(),
            r.wf(),
    {
        CloseLoop { workload, workload_attach: None, done: false }
    }

    /// Whether the workload is exhausted.
    pub fn is_done(&self) -> (r: bool)
        ensures
            r == self.done(),
    {
        self.done
    }

    /// The workload.
    pub fn get_workload(&self) -> (r: &W)
        ensures
            *r == self.workload(),
    {
        &self.workload
    }

    /// What starting the loop comes to when the workload hands out `first`:
    /// the operation to invoke, with what came with it kept for its result.
    pub open spec fn launched(
        before: Self,
        first: Next<W::Attach>,
        after: Self,
        r: Result<Invoke, Error>,
    ) -> bool {
        &&& after.done() == before.done()
        &&& match first {
            Err(error) => r == Err::<Invoke, Error>(error) && after.attach() == before.attach(),
            Ok(None) => r == Err::<Invoke, Error>(Error::NotEnoughOp) && after.attach()
                == before.attach(),
            Ok(Some((op, attach))) => if before.attach() is Some || before.done() {
                r == Err::<Invoke, Error>(Error::DuplicatedLaunch) && after.attach()
                    == before.attach()
            } else {
                r == Ok::<Invoke, Error>(Invoke(op)) && after.attach() == Some(attach)
            },
        }
    }

    /// What going on after a result comes to when the workload hands out
    /// `next`: the operation to invoke, or the end of the loop.
    pub open spec fn proceeded(next: Next<W::Attach>, after: Self, r: Result<Then, Error>) -> bool {
        match next {
            Err(error) => r == Err::<Then, Error>(error) && after.attach() is None
                && !after.done(),
            Ok(None) => r == Ok::<Then, Error>(Then::Stop(Stop)) && after.attach() is None
                && after.done(),
            Ok(Some((op, attach))) => r == Ok::<Then, Error>(Then::Invoke(Invoke(op)))
                && after.attach() == Some(attach) && !after.done(),
        }
    }

    /// Starts the loop with what the workload has handed out first.
    pub fn launch(&mut self, first: Next<W::Attach>) -> (r: Result<Invoke, Error>)
        requires
            old(self).wf(),
        ensures
            final(self).workload() == old(self).workload(),
            Self::launched(*old(self), first, *final(self), r),
            final(self).wf(),
    {
        match first {
            Err(error) => Err(error),
            Ok(None) => Err(Error::NotEnoughOp),
            Ok(Some((op, attach))) => {
                if self.workload_attach.is_some() || self.done {
                    return Err(Error::DuplicatedLaunch);
                }
                self.workload_attach = Some(attach);
                Ok(Invoke(op))
            },
        }
    }

    /// Starts the loop: invokes the first operation of the workload.
    pub fn on_init(&mut self) -> (r: Result<Invoke, Error>)
        requires
            old(self).wf(),
        ensures
            exists|first: Next<W::Attach>| #[trigger]
                W::next_op_post(old(self).workload(), final(self).workload(), first)
                    && Self::launched(*old(self), first, *final(self), r),
            final(self).wf(),
    {
        let first = self.workload.next_op();
        let ghost asked = *self;
        let r = self.launch(first);
        proof {
            assert(W::next_op_post(old(self).workload(), self.workload(), first));
            assert(Self::launched(asked, first, *self, r));
        }
        r
    }

    /// Goes on with what the workload has handed out after a result: the
    /// next operation is invoked, or the loop stops for good.
    pub fn proceed(&mut self, next: Next<W::Attach>) -> (r: Result<Then, Error>)
        requires
            old(self).attach() is None,
            !old(self).done(),
        ensures
            final(self).workload() == old(self).workload(),
            Self::proceeded(next, *final(self), r),
            final(self).wf(),
    {
        match next {
            Err(error) => Err(error),
            Ok(None) => {
                self.done = true;
                Ok(Then::Stop(Stop))
            },
            Ok(Some((op, attach))) => {
                self.workload_attach = Some(attach);
                Ok(Then::Invoke(Invoke(op)))
            },
        }
    }

    /// What a result comes to when the workload, told of it, answers `taken`
    /// and is `told` afterwards: the loop goes on where the result is taken.
    pub open spec fn resulted(
        told: W,
        taken: Result<(), Error>,
        after: Self,
        r: Result<Then, Error>,
    ) -> bool {
        match taken {
            Err(error) => r == Err::<Then, Error>(error) && after.workload() == told
                && after.attach() is None && !after.done(),
            Ok(()) => exists|next: Next<W::Attach>| #[trigger]
                W::next_op_post(told, after.workload(), next) && Self::proceeded(next, after, r),
        }
    }

    /// Handles the result of the operation under way: tells the workload,
    /// and invokes the next operation or stops.
    pub fn on_invoke_ok(&mut self, invoke_ok: InvokeOk) -> (r: Result<Then, Error>)
        requires
            old(self).wf(),
        ensures
            match old(self).attach() {
                None => r == Err::<Then, Error>(Error::MissingWorkloadAttach) && *final(self)
                    == *old(self),
                Some(attach) => exists|told: W, taken: Result<(), Error>| #[trigger]
                    W::on_result_post(old(self).workload(), invoke_ok.1, attach, told, taken)
                        && Self::resulted(told, taken, *final(self), r),
            },
            final(self).wf(),
    {
        let attach = match self.workload_attach.take() {
            Some(attach) => attach,
            None => {
                return Err(Error::MissingWorkloadAttach);
            },
        };
        let result = invoke_ok.1;
        let taken = self.workload.on_result(result, attach);
        let ghost told = self.workload;
        assert(W::on_result_post(old(self).workload(), result, attach, told, taken));
        match taken {
            Ok(()) => {},
            Err(error) => {
                assert(Self::resulted(told, taken, *self, Err::<Then, Error>(error)));
                return Err(error);
            },
        }
        let next = self.workload.next_op();
        let r = self.proceed(next);
        proof {
            assert(W::next_op_post(told, self.workload(), next));
            assert(Self::resulted(told, taken, *self, r));
        }
        r
    }
}

} // verus!
