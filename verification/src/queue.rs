//! A bounded queue in front of a service, which sheds what waits too long.
//!
//! A request is stamped with a deadline when it is enqueued. A worker takes requests off
//! the queue one at a time and races the deadline of each against the readiness of the
//! service behind: the request is handed over if the service is ready first and shed with
//! [`QueueError::Timeout`] otherwise. A request handed over can be given a time limit of
//! its own, which ends it with [`QueueError::ProcessingTimeout`].
//!
//! The channel, the timers and the tasks belong to whoever drives the queue. The worker
//! and the future of a request are state machines: each says what it waits for next, is
//! told what came of it, and says what to do about it. They tell the time by any
//! [`Moment`], and by no more than the clock behind it can tell.

use core::time::Duration;
use vstd::prelude::*;

use crate::clock::Instant;
use crate::debt::MAX_PERMITS;
use crate::duration::{longest, micros, micros_word, nanos, word};
use crate::moment::{
    elapsed, law_a_duration_waited_out_has_passed, law_virtual_deadlines_are_whole_microseconds,
    Moment, Steady,
};
use crate::ready::Readiness;

verus! {

/// How many requests a queue holds unless told otherwise.
pub const DEFAULT_CAPACITY: usize = 65536;

/// The microseconds a request may wait in a queue unless told otherwise: a tenth of a
/// second.
pub const DEFAULT_TIMEOUT_MICROS: u64 = 100_000;

/// How long a request may wait in a queue unless told otherwise.
pub fn default_timeout() -> (d: Duration)
    ensures
        nanos(d) == DEFAULT_TIMEOUT_MICROS * 1000,
{
    Duration::from_micros(DEFAULT_TIMEOUT_MICROS)
}

// ---- the shed deadline ----

/// The live shed deadline of a queue. Retuning it changes the deadline stamped on the
/// requests enqueued from then on; those already waiting keep theirs.
pub struct QueueTimeout {
    us: u64,
}

impl View for QueueTimeout {
    type V = int;

    /// Microseconds.
    closed spec fn view(&self) -> int {
        self.us as int
    }
}

/// The microseconds that a timeout of `d` is kept as: whole ones, as a 64-bit count.
pub open spec fn kept(d: Duration) -> int {
    (micros(d) % word()) as int
}

impl QueueTimeout {
    pub fn new(timeout: Duration) -> (t: Self)
        ensures
            t@ == kept(timeout),
    {
        QueueTimeout { us: micros_word(timeout) }
    }

    pub fn set(&mut self, timeout: Duration)
        ensures
            final(self)@ == kept(timeout),
    {
        self.us = micros_word(timeout);
    }

    pub fn get(&self) -> (timeout: Duration)
        ensures
            nanos(timeout) == self@ * 1000,
            kept(timeout) == self@,
    {
        Duration::from_micros(self.us)
    }
}

// ---- errors ----

/// Why a request got no response.
pub enum QueueError {
    /// It waited past the deadline it was enqueued with.
    Timeout { waited: Duration, limit: Duration },
    /// It was handed over and ran past its time limit.
    ProcessingTimeout { processed: Duration, limit: Duration },
    /// The worker is gone: nobody takes requests off the queue.
    ServerWorkerDropped,
    /// The request was dropped on the way.
    ServerRequestDropped,
}

impl QueueError {
    /// The error of a request that waited for `waited` nanoseconds under `limit`.
    pub open spec fn is_timeout(self, waited: int, limit: Duration) -> bool {
        &&& self is Timeout
        &&& nanos(self->Timeout_waited) == waited
        &&& self->Timeout_limit == limit
    }

    /// The error of a request that ran for `processed` nanoseconds under `limit`.
    pub open spec fn is_processing_timeout(self, processed: int, limit: Duration) -> bool {
        &&& self is ProcessingTimeout
        &&& nanos(self->processed) == processed
        &&& self->ProcessingTimeout_limit == limit
    }
}

// ---- the layer ----

/// How a queue is set up.
pub struct QueueLayer {
    pub queue_timeout: QueueTimeout,
    pub processing_timeout: Option<Duration>,
    pub capacity: usize,
}

impl Default for QueueLayer {
    /// A tenth of a second in the queue, no time limit after it, and the default capacity.
    fn default() -> (l: Self)
        ensures
            l.queue_timeout@ == DEFAULT_TIMEOUT_MICROS,
            l.processing_timeout is None,
            l.capacity == DEFAULT_CAPACITY,
    {
        QueueLayer::builder().build()
    }
}

impl QueueLayer {
    /// A queue that sheds after `queue_timeout`.
    pub fn new(queue_timeout: Duration) -> (l: Self)
        ensures
            l.queue_timeout@ == kept(queue_timeout),
            l.processing_timeout is None,
            l.capacity == DEFAULT_CAPACITY,
    {
        QueueLayer {
            queue_timeout: QueueTimeout::new(queue_timeout),
            processing_timeout: None,
            capacity: DEFAULT_CAPACITY,
        }
    }

    /// Set up a queue one choice at a time.
    pub fn builder() -> (b: QueueLayerBuilder)
        ensures
            b.queue_timeout is None,
            b.capacity is None,
            b.processing_timeout is None,
    {
        QueueLayerBuilder { queue_timeout: None, capacity: None, processing_timeout: None }
    }

    /// A queue with another timeout than the default.
    pub fn with_custom_queue_timeout(queue_timeout: Duration) -> (l: Self)
        ensures
            l.queue_timeout@ == kept(queue_timeout),
            l.processing_timeout is None,
            l.capacity == DEFAULT_CAPACITY,
    {
        QueueLayer::builder().with_custom_queue_timeout(queue_timeout).build()
    }

    /// A queue with another capacity than the default.
    pub fn with_custom_capacity(capacity: usize) -> (l: Self)
        ensures
            l.queue_timeout@ == DEFAULT_TIMEOUT_MICROS,
            l.processing_timeout is None,
            l.capacity == capacity,
    {
        QueueLayer::builder().with_custom_capacity(capacity).build()
    }

    /// The same queue holding `capacity` requests.
    pub fn with_capacity(self, capacity: usize) -> (l: Self)
        ensures
            l == (QueueLayer { capacity, ..self }),
    {
        QueueLayer {
            queue_timeout: self.queue_timeout,
            processing_timeout: self.processing_timeout,
            capacity,
        }
    }

    /// The same queue with a time limit on the requests it hands over.
    pub fn with_processing_timeout(self, timeout: Duration) -> (l: Self)
        ensures
            l == (QueueLayer { processing_timeout: Some(timeout), ..self }),
    {
        QueueLayer {
            queue_timeout: self.queue_timeout,
            processing_timeout: Some(timeout),
            capacity: self.capacity,
        }
    }

    /// A live handle to this layer's shed deadline.
    pub fn timeout(&mut self) -> (timeout: &mut QueueTimeout)
        ensures
            *timeout == old(self).queue_timeout,
            *final(self) == (QueueLayer { queue_timeout: *final(timeout), ..*old(self) }),
    {
        &mut self.queue_timeout
    }

    /// Put the queue in front of `inner`. A queue holds at least one request.
    pub fn build<S, Req, Tx, T: Moment>(self, inner: S) -> (built: (
        QueueService,
        QueueWorker<S, Req, Tx, T>,
        QueueTimeout,
    ))
        requires
            0 < self.capacity <= MAX_PERMITS,
        ensures
            built.0.processing_timeout == self.processing_timeout,
            built.0.capacity == self.capacity,
            built.1.service == inner,
            built.1.waiting is None,
            built.2 == self.queue_timeout,
    {
        (
            QueueService { processing_timeout: self.processing_timeout, capacity: self.capacity },
            QueueWorker { service: inner, waiting: None },
            self.queue_timeout,
        )
    }
}

/// Collects the choices for a [`QueueLayer`].
pub struct QueueLayerBuilder {
    pub queue_timeout: Option<Duration>,
    pub capacity: Option<usize>,
    pub processing_timeout: Option<Duration>,
}

impl QueueLayerBuilder {
    pub fn with_custom_queue_timeout(self, queue_timeout: Duration) -> (b: Self)
        ensures
            b == (QueueLayerBuilder { queue_timeout: Some(queue_timeout), ..self }),
    {
        QueueLayerBuilder {
            queue_timeout: Some(queue_timeout),
            capacity: self.capacity,
            processing_timeout: self.processing_timeout,
        }
    }

    pub fn with_custom_capacity(self, capacity: usize) -> (b: Self)
        ensures
            b == (QueueLayerBuilder { capacity: Some(capacity), ..self }),
    {
        QueueLayerBuilder {
            queue_timeout: self.queue_timeout,
            capacity: Some(capacity),
            processing_timeout: self.processing_timeout,
        }
    }

    pub fn processing_timeout(self, timeout: Duration) -> (b: Self)
        ensures
            b == (QueueLayerBuilder { processing_timeout: Some(timeout), ..self }),
    {
        QueueLayerBuilder {
            queue_timeout: self.queue_timeout,
            capacity: self.capacity,
            processing_timeout: Some(timeout),
        }
    }

    /// The layer; what was not chosen is at its default.
    pub fn build(self) -> (l: QueueLayer)
        ensures
            l.queue_timeout@ == match self.queue_timeout {
                Some(timeout) => kept(timeout),
                None => DEFAULT_TIMEOUT_MICROS as int,
            },
            l.processing_timeout == self.processing_timeout,
            l.capacity == match self.capacity {
                Some(capacity) => capacity,
                None => DEFAULT_CAPACITY,
            },
    {
        let queue_timeout = match self.queue_timeout {
            Some(timeout) => timeout,
            None => default_timeout(),
        };
        let capacity: usize = match self.capacity {
            Some(capacity) => capacity,
            None => DEFAULT_CAPACITY,
        };
        QueueLayer {
            queue_timeout: QueueTimeout::new(queue_timeout),
            processing_timeout: self.processing_timeout,
            capacity,
        }
    }
}

// ---- a queued request ----

/// A request on its way through the queue, with the reply handle `tx` that its answer
/// goes to.
pub struct QueueItem<Req, Tx, T: Moment> {
    pub req: Req,
    pub tx: Tx,
    pub enqueued_at: T,
    pub deadline: T,
    /// The limit this request was enqueued with, kept so that a shed reports the limit the
    /// request raced and not what the live timeout reads by then.
    pub limit: Duration,
}

impl<Req, Tx, T: Moment> QueueItem<Req, Tx, T> {
    /// A request enqueued at `now` under a timeout of `us` microseconds.
    pub open spec fn stamped(self, now: T, us: int) -> bool {
        &&& self.enqueued_at == now
        &&& nanos(self.limit) == us * 1000
        &&& self.deadline.ns() == now.after(self.limit)
    }

    /// Nanoseconds waited by `now`.
    pub open spec fn waited(self, now: T) -> int {
        elapsed(now.ns(), self.enqueued_at.ns())
    }

    /// Answer the request with a timeout.
    fn expire(self, now: T) -> (step: Step<Req, Tx, T>)
        ensures
            step matches Step::Shed { tx, error } && tx == self.tx && error.is_timeout(
                self.waited(now),
                self.limit,
            ),
    {
        Step::Shed {
            tx: self.tx,
            error: QueueError::Timeout {
                waited: now.since(self.enqueued_at),
                limit: self.limit,
            },
        }
    }
}

// ---- the worker ----

/// What the worker is to do next.
pub enum Step<Req, Tx, T: Moment> {
    /// Take the next request off the queue.
    Receive,
    /// Wait for `deadline` or for the service to be ready, whichever comes first.
    Race { deadline: T },
    /// Answer `tx` with `error`, and take the next request off the queue.
    Shed { tx: Tx, error: QueueError },
    /// Call the service with `req` and answer `tx` with the running response. One request
    /// has been served.
    Dispatch { req: Req, tx: Tx },
    /// No request will come any more: wait for those in flight.
    Close,
}

/// What becomes of a request.
pub enum Fate {
    /// Nobody waits for the answer any more: it is dropped unanswered.
    Abandoned,
    /// It is answered with a timeout.
    Shed,
    /// It waits for the service.
    Waiting,
    /// It goes to the service.
    Dispatched,
}

/// The fate of a request that comes off the queue at `now` with its deadline at
/// `deadline`.
pub open spec fn fate_on_receipt(abandoned: bool, now: int, deadline: int) -> Fate {
    if abandoned {
        Fate::Abandoned
    } else if now >= deadline {
        Fate::Shed
    } else {
        Fate::Waiting
    }
}

/// The fate of a waiting request, by whether its timer has fired and whether the service
/// is ready. The timer comes first.
pub open spec fn fate_in_race(fired: bool, ready: bool) -> Fate {
    if fired {
        Fate::Shed
    } else if ready {
        Fate::Dispatched
    } else {
        Fate::Waiting
    }
}

/// Takes requests off the queue and hands them to `service`.
pub struct QueueWorker<S, Req, Tx, T: Moment> {
    pub service: S,
    /// The request that waits for the service to be ready.
    pub waiting: Option<QueueItem<Req, Tx, T>>,
}

impl<S, Req, Tx, T: Moment> QueueWorker<S, Req, Tx, T> {
    /// The queue gave `item` at `now`, or it is closed and empty. `abandoned` tells whether
    /// the receiving end of the item's reply handle is gone.
    pub fn received(
        &mut self,
        item: Option<QueueItem<Req, Tx, T>>,
        abandoned: bool,
        now: T,
    ) -> (step: Step<Req, Tx, T>)
        requires
            old(self).waiting is None,
        ensures
            final(self).service == old(self).service,
            match item {
                None => step is Close && final(self).waiting is None,
                Some(i) => match fate_on_receipt(abandoned, now.ns(), i.deadline.ns()) {
                    Fate::Abandoned => step is Receive && final(self).waiting is None,
                    Fate::Shed => {
                        &&& step matches Step::Shed { tx, error }
                        &&& tx == i.tx
                        &&& error.is_timeout(i.waited(now), i.limit)
                        &&& final(self).waiting is None
                    },
                    Fate::Waiting => {
                        &&& step == (Step::<Req, Tx, T>::Race { deadline: i.deadline })
                        &&& final(self).waiting == Some(i)
                    },
                    Fate::Dispatched => false,
                },
            },
    {
        match item {
            None => Step::Close,
            Some(item) => {
                if abandoned {
                    return Step::Receive;
                }
                if now.reached(item.deadline) {
                    return item.expire(now);
                }
                let deadline = item.deadline;
                self.waiting = Some(item);
                Step::Race { deadline }
            },
        }
    }

    /// The waiting request's timer and the service were looked at, in this order, at `now`.
    pub fn raced(&mut self, fired: bool, ready: bool, now: T) -> (step: Step<Req, Tx, T>)
        requires
            old(self).waiting is Some,
        ensures
            final(self).service == old(self).service,
            ({
                let i = old(self).waiting->0;
                match fate_in_race(fired, ready) {
                    Fate::Shed => {
                        &&& step matches Step::Shed { tx, error }
                        &&& tx == i.tx
                        &&& error.is_timeout(i.waited(now), i.limit)
                        &&& final(self).waiting is None
                    },
                    Fate::Dispatched => {
                        &&& step == (Step::<Req, Tx, T>::Dispatch { req: i.req, tx: i.tx })
                        &&& final(self).waiting is None
                    },
                    Fate::Waiting => {
                        &&& step == (Step::<Req, Tx, T>::Race { deadline: i.deadline })
                        &&& final(self).waiting == Some(i)
                    },
                    Fate::Abandoned => false,
                }
            }),
    {
        let item = self.waiting.take().unwrap();
        if fired {
            item.expire(now)
        } else if ready {
            Step::Dispatch { req: item.req, tx: item.tx }
        } else {
            let deadline = item.deadline;
            self.waiting = Some(item);
            Step::Race { deadline }
        }
    }
}

// ---- the service ----

/// What trying to reserve a place in the queue came to.
pub enum Reservation {
    /// A place is reserved.
    Reserved,
    /// The queue is full.
    Full,
    /// The worker is gone.
    Closed,
}

/// The front of the queue.
pub struct QueueService {
    pub processing_timeout: Option<Duration>,
    pub capacity: usize,
}

impl Clone for QueueService {
    /// Another front of the same queue.
    fn clone(&self) -> (service: Self)
        ensures
            service == *self,
    {
        QueueService { processing_timeout: self.processing_timeout, capacity: self.capacity }
    }
}

impl QueueService {
    /// Readiness is a place in the queue.
    pub fn poll_ready(&self, reservation: Reservation) -> (ready: Readiness<QueueError>)
        ensures
            ready == match reservation {
                Reservation::Reserved => Readiness::Ready,
                Reservation::Full => Readiness::Pending,
                Reservation::Closed => Readiness::Failed(QueueError::ServerWorkerDropped),
            },
    {
        match reservation {
            Reservation::Reserved => Readiness::Ready,
            Reservation::Full => Readiness::Pending,
            Reservation::Closed => Readiness::Failed(QueueError::ServerWorkerDropped),
        }
    }

    /// Stamp a request for the queue, at `now`, with what the timeout reads now.
    pub fn call<Req, Tx, T: Moment>(
        &self,
        timeout: &QueueTimeout,
        req: Req,
        tx: Tx,
        now: T,
    ) -> (item: QueueItem<Req, Tx, T>)
        ensures
            item.req == req,
            item.tx == tx,
            item.stamped(now, timeout@),
    {
        let limit = timeout.get();
        QueueItem { req, tx, enqueued_at: now, deadline: now.plus(limit), limit }
    }

    /// The future of a request, whose answer arrives on `rx`. `accepted` tells whether the
    /// queue took the request.
    pub fn enqueued<Rx, H, T: Moment>(&self, accepted: bool, rx: Rx) -> (future:
        QueueServiceFuture<Rx, H, T>)
        ensures
            future.state == if accepted {
                FutureState::<Rx, H, T>::Queued { rx, processing_timeout: self.processing_timeout }
            } else {
                FutureState::<Rx, H, T>::Error(Some(QueueError::ServerWorkerDropped))
            },
    {
        if accepted {
            QueueServiceFuture::queued(rx, self.processing_timeout)
        } else {
            QueueServiceFuture::error(QueueError::ServerWorkerDropped)
        }
    }
}

// ---- the future of a request ----

/// A time limit on a request that was handed over.
pub struct ProcessingTimeout<T: Moment> {
    pub timeout: Duration,
    /// When the timer fires.
    pub due: T,
}

/// Where a request is: its reply awaited on `Rx`, or its task, `H`, running.
pub enum FutureState<Rx, H, T: Moment> {
    Queued { rx: Rx, processing_timeout: Option<Duration> },
    Started { handle: H, sleep: Option<ProcessingTimeout<T>>, started_at: T },
    Error(Option<QueueError>),
}

/// What looking at the reply handle came to.
pub enum Reply<H> {
    /// No answer yet.
    Pending,
    /// The request was handed over and runs as a task.
    Started(H),
    /// The request was shed.
    Shed(QueueError),
    /// The sending end is gone and there will be no answer.
    Closed,
}

/// What looking at the task came to.
pub enum Task<Resp, P> {
    Pending,
    Finished(Resp),
    Panicked(P),
    Cancelled,
}

/// What the future is to do next.
pub enum Next<Resp, P> {
    /// Look at the reply handle.
    PollReply,
    /// Look at the task.
    PollTask,
    /// Look at the timer.
    PollTimer,
    /// Nothing until woken.
    Wait,
    /// The request ends here.
    Done(Result<Resp, QueueError>),
    /// The task panicked: go on panicking with its payload.
    Unwind(P),
}

/// The future of one request.
pub struct QueueServiceFuture<Rx, H, T: Moment> {
    pub state: FutureState<Rx, H, T>,
}

impl<Rx, H, T: Moment> QueueServiceFuture<Rx, H, T> {
    /// The future of a request that is in the queue.
    pub fn queued(rx: Rx, processing_timeout: Option<Duration>) -> (future: Self)
        ensures
            future.state == (FutureState::<Rx, H, T>::Queued { rx, processing_timeout }),
    {
        QueueServiceFuture { state: FutureState::Queued { rx, processing_timeout } }
    }

    /// The future of a request that never got into the queue.
    pub fn error(error: QueueError) -> (future: Self)
        ensures
            future.state == FutureState::<Rx, H, T>::Error(Some(error)),
    {
        QueueServiceFuture { state: FutureState::Error(Some(error)) }
    }

    /// The state a request is in once it was handed over at `now`.
    pub open spec fn started(self, handle: H, limit: Option<Duration>, now: T) -> bool {
        &&& self.state matches FutureState::Started { handle: h, sleep, started_at }
        &&& h == handle
        &&& started_at == now
        &&& match (limit, sleep) {
            (None, None) => true,
            (Some(timeout), Some(s)) => s.timeout == timeout && s.due.ns() == now.after(timeout),
            _ => false,
        }
    }

    /// The future was polled: what to look at first. An error is reported once; whoever
    /// polls after that is told that the request was dropped.
    pub fn poll<Resp, P>(&mut self) -> (next: Next<Resp, P>)
        ensures
            match old(self).state {
                FutureState::Queued { .. } => next is PollReply && *final(self) == *old(self),
                FutureState::Started { .. } => next is PollTask && *final(self) == *old(self),
                FutureState::Error(error) => {
                    &&& next == Next::<Resp, P>::Done(
                        Err(
                            match error {
                                Some(e) => e,
                                None => QueueError::ServerRequestDropped,
                            },
                        ),
                    )
                    &&& final(self).state == FutureState::<Rx, H, T>::Error(None)
                },
            },
    {
        match &mut self.state {
            FutureState::Queued { .. } => Next::PollReply,
            FutureState::Started { .. } => Next::PollTask,
            FutureState::Error(error) => match error.take() {
                Some(e) => Next::Done(Err(e)),
                None => Next::Done(Err(QueueError::ServerRequestDropped)),
            },
        }
    }

    /// The reply handle was looked at, at `now`. A request that was handed over starts its
    /// timer here, and its task is looked at straight away.
    pub fn replied<Resp, P>(&mut self, reply: Reply<H>, now: T) -> (next: Next<Resp, P>)
        requires
            old(self).state is Queued,
        ensures
            match reply {
                Reply::Pending => next is Wait && *final(self) == *old(self),
                Reply::Started(handle) => {
                    &&& next is PollTask
                    &&& final(self).started(
                        handle,
                        old(self).state->Queued_processing_timeout,
                        now,
                    )
                    &&& final(self).state is Started
                    &&& final(self).state->handle == handle
                    &&& final(self).state->started_at == now
                    &&& final(self).state->sleep is Some
                        <==> old(self).state->Queued_processing_timeout is Some
                    &&& old(self).state->Queued_processing_timeout matches Some(t) ==> {
                        let sleep = final(self).state->sleep->0;
                        sleep.timeout == t && sleep.due.ns() == now.after(t)
                    }
                },
                Reply::Shed(error) => {
                    &&& next == Next::<Resp, P>::Done(Err(error))
                    &&& *final(self) == *old(self)
                },
                Reply::Closed => {
                    &&& next == Next::<Resp, P>::Done(Err(QueueError::ServerRequestDropped))
                    &&& *final(self) == *old(self)
                },
            },
    {
        match reply {
            Reply::Pending => Next::Wait,
            Reply::Started(handle) => {
                let limit = match &self.state {
                    FutureState::Queued { rx: _, processing_timeout } => *processing_timeout,
                    _ => None,
                };
                let sleep = match limit {
                    Some(timeout) => Some(ProcessingTimeout { timeout, due: now.plus(timeout) }),
                    None => None,
                };
                self.state = FutureState::Started { handle, sleep, started_at: now };
                Next::PollTask
            },
            Reply::Shed(error) => Next::Done(Err(error)),
            Reply::Closed => Next::Done(Err(QueueError::ServerRequestDropped)),
        }
    }

    /// The task was looked at. A response that is there is taken whatever the timer says.
    pub fn ran<Resp, P>(&self, task: Task<Resp, P>) -> (next: Next<Resp, P>)
        requires
            self.state is Started,
        ensures
            next == match task {
                Task::Finished(resp) => Next::<Resp, P>::Done(Ok(resp)),
                Task::Panicked(payload) => Next::Unwind(payload),
                Task::Cancelled => Next::Done(Err(QueueError::ServerRequestDropped)),
                Task::Pending => if self.state->sleep is Some {
                    Next::PollTimer
                } else {
                    Next::Wait
                },
            },
    {
        match task {
            Task::Finished(resp) => Next::Done(Ok(resp)),
            Task::Panicked(payload) => Next::Unwind(payload),
            Task::Cancelled => Next::Done(Err(QueueError::ServerRequestDropped)),
            Task::Pending => match &self.state {
                FutureState::Started { handle: _, sleep: Some(_), started_at: _ } => {
                    Next::PollTimer
                },
                _ => Next::Wait,
            },
        }
    }

    /// The timer was looked at, at `now`.
    pub fn timed<Resp, P>(&self, fired: bool, now: T) -> (next: Next<Resp, P>)
        requires
            self.state is Started,
            self.state->sleep is Some,
        ensures
            !fired ==> next is Wait,
            fired ==> {
                &&& next matches Next::Done(Err(error))
                &&& error.is_processing_timeout(
                    elapsed(now.ns(), self.state->started_at.ns()),
                    self.state->sleep->0.timeout,
                )
            },
    {
        match &self.state {
            FutureState::Started { handle: _, sleep: Some(sleep), started_at } if fired => {
                Next::Done(
                    Err(
                        QueueError::ProcessingTimeout {
                            processed: now.since(*started_at),
                            limit: sleep.timeout,
                        },
                    ),
                )
            },
            _ => Next::Wait,
        }
    }
}

// ---- laws ----

/// A request handed over at `now` under a time limit is cut off that limit later, whatever the
/// limit, and without one it is never cut off. Its handle is the one it was handed over with.
pub proof fn law_processing_is_cut_off_its_limit_later<Rx, H, T: Moment>(
    future: QueueServiceFuture<Rx, H, T>,
    handle: H,
    limit: Option<Duration>,
    now: T,
)
    requires
        future.started(handle, limit, now),
    ensures
        future.state is Started,
        future.state->handle == handle,
        future.state->started_at == now,
        limit is None <==> future.state->sleep is None,
        limit matches Some(t) ==> {
            let sleep = future.state->sleep->0;
            &&& sleep.timeout == t
            &&& sleep.due.ns() == now.after(t)
            &&& now.after(t) == now.ns() + nanos(t) ==> sleep.due.ns() - now.ns() == nanos(t)
        },
{
}

/// On either clock the time limit of a request is exact: to the nanosecond on the steady
/// clock, and in virtual time for a whole number of microseconds, up to the end of time.
pub proof fn law_processing_limits_are_exact<Rx, H>(
    steady: QueueServiceFuture<Rx, H, Steady>,
    virtual_future: QueueServiceFuture<Rx, H, Instant>,
    handle: H,
    limit: Duration,
    at: Steady,
    now: Instant,
)
    requires
        steady.started(handle, Some(limit), at),
        virtual_future.started(handle, Some(limit), now),
        now@ >= 0,
    ensures
        at.ns() + nanos(limit) <= longest() ==> steady.state->sleep->0.due.ns() - at.ns() == nanos(
            limit,
        ),
        nanos(limit) % 1000 == 0 && now@ + nanos(limit) / 1000 <= u64::MAX
            ==> virtual_future.state->sleep->0.due.ns() - now.ns() == nanos(limit),
{
    if now@ + nanos(limit) / 1000 <= u64::MAX {
        law_virtual_deadlines_are_whole_microseconds(now, limit);
    }
}

/// A request that ran past its time limit is told how long it ran and the limit itself; one
/// that waited past its deadline how long it waited and the limit it was enqueued with.
pub proof fn law_timeouts_report_the_time_and_the_limit(
    error: QueueError,
    time: int,
    limit: Duration,
)
    ensures
        error.is_timeout(time, limit) <==> (error matches QueueError::Timeout { waited, limit: l }
            && nanos(waited) == time && l == limit),
        error.is_processing_timeout(time, limit) <==> (error matches QueueError::ProcessingTimeout {
            processed,
            limit: l,
        } && nanos(processed) == time && l == limit),
{
}

/// A request carries the time it was enqueued at and the limit read then, and its deadline is
/// that limit later. How long it has waited is counted from then.
pub proof fn law_a_request_is_stamped_when_enqueued<Req, Tx, T: Moment>(
    item: QueueItem<Req, Tx, T>,
    now: T,
    us: int,
    later: T,
)
    ensures
        item.stamped(now, us) <==> item.enqueued_at == now && nanos(item.limit) == us * 1000
            && item.deadline.ns() == now.after(item.limit),
        later.ns() >= item.enqueued_at.ns() ==> item.waited(later) == later.ns()
            - item.enqueued_at.ns(),
        later.ns() <= item.enqueued_at.ns() ==> item.waited(later) == 0,
{
}

/// A request that comes off the queue is left alone where nobody waits for it, shed from its
/// deadline on, and waits for the service before it.
pub proof fn law_receipt_sheds_from_the_deadline_on(abandoned: bool, now: int, deadline: int)
    ensures
        fate_on_receipt(abandoned, now, deadline) is Abandoned <==> abandoned,
        fate_on_receipt(abandoned, now, deadline) is Shed <==> !abandoned && now >= deadline,
        fate_on_receipt(abandoned, now, deadline) is Waiting <==> !abandoned && now < deadline,
        !(fate_on_receipt(abandoned, now, deadline) is Dispatched),
{
}

/// A waiting request is shed where its timer has fired, whether the service is ready or not,
/// handed over where the service is ready before that, and waits on otherwise.
pub proof fn law_the_timer_comes_before_the_service(fired: bool, ready: bool)
    ensures
        fate_in_race(fired, ready) is Shed <==> fired,
        fate_in_race(fired, ready) is Dispatched <==> !fired && ready,
        fate_in_race(fired, ready) is Waiting <==> !fired && !ready,
        !(fate_in_race(fired, ready) is Abandoned),
{
}

/// A timeout is kept to the microsecond, rounded down, where a word counts its microseconds,
/// and by what is over where it does not.
pub proof fn law_timeouts_are_kept_to_the_microsecond(d: Duration)
    ensures
        nanos(d) < 0x1_0000_0000_0000_0000 * 1000 ==> kept(d) * 1000 <= nanos(d) < kept(d) * 1000
            + 1000,
        kept(d) == (nanos(d) as int / 1000) % 0x1_0000_0000_0000_0000int,
        0 <= kept(d) <= u64::MAX,
{
    let us = nanos(d) / 1000;
    if nanos(d) < 0x1_0000_0000_0000_0000 * 1000 {
        assert(us < 0x1_0000_0000_0000_0000) by (nonlinear_arith)
            requires
                us == nanos(d) / 1000,
                nanos(d) < 0x1_0000_0000_0000_0000 * 1000,
        ;
        vstd::arithmetic::div_mod::lemma_small_mod(us, 0x1_0000_0000_0000_0000);
    }
}

/// The fate of a request after `races`, looks at its timer and at the service, when it was
/// `first` on receipt. Only a waiting request is looked after.
pub open spec fn fate_after(first: Fate, races: Seq<(bool, bool)>) -> Fate
    decreases races.len(),
{
    if races.len() == 0 {
        first
    } else {
        let so_far = fate_after(first, races.drop_last());
        if so_far is Waiting {
            fate_in_race(races.last().0, races.last().1)
        } else {
            so_far
        }
    }
}

/// A request meets one fate: once it is shed, dispatched or abandoned, nothing that happens
/// later changes that.
pub proof fn law_a_fate_is_final(first: Fate, races: Seq<(bool, bool)>, more: Seq<(bool, bool)>)
    requires
        !(fate_after(first, races) is Waiting),
    ensures
        fate_after(first, races + more) == fate_after(first, races),
    decreases more.len(),
{
    if more.len() == 0 {
        assert(races + more =~= races);
    } else {
        law_a_fate_is_final(first, races, more.drop_last());
        assert((races + more).drop_last() =~= races + more.drop_last());
    }
}

/// A request nobody waits for is neither answered nor handed over.
pub proof fn law_an_abandoned_request_is_left_alone(
    now: int,
    deadline: int,
    races: Seq<(bool, bool)>,
)
    ensures
        fate_after(fate_on_receipt(true, now, deadline), races) is Abandoned,
    decreases races.len(),
{
    if races.len() > 0 {
        law_an_abandoned_request_is_left_alone(now, deadline, races.drop_last());
    }
}

/// Nobody waits past the timer: a request whose timer was seen to fire has met its fate.
pub proof fn law_nobody_waits_past_the_timer(first: Fate, races: Seq<(bool, bool)>, i: int)
    requires
        0 <= i < races.len(),
        races[i].0,
    ensures
        !(fate_after(first, races) is Waiting),
    decreases races.len(),
{
    if i < races.len() - 1 {
        law_nobody_waits_past_the_timer(first, races.drop_last(), i);
    }
}

/// A request is dispatched only where the service was ready before the timer was seen to
/// fire, and it is dispatched the first time that is so.
pub proof fn law_dispatch_needs_a_ready_service_before_the_timer(
    now: int,
    deadline: int,
    races: Seq<(bool, bool)>,
)
    ensures
        fate_after(fate_on_receipt(false, now, deadline), races) is Dispatched <==> now < deadline
            && (exists|i: int| #[trigger] first_ready(races, i)),
    decreases races.len(),
{
    if races.len() > 0 {
        let front = races.drop_last();
        law_dispatch_needs_a_ready_service_before_the_timer(now, deadline, front);
        lemma_waiting_saw_nothing(now, deadline, front);
        if exists|i: int| first_ready(front, i) {
            let i = choose|i: int| first_ready(front, i);
            assert forall|j: int| 0 <= j < i implies !(#[trigger] races[j]).0 && !races[j].1 by {
                assert(front[j] == races[j]);
            }
            assert(first_ready(races, i));
        }
        if exists|i: int| first_ready(races, i) {
            let i = choose|i: int| first_ready(races, i);
            if i < front.len() {
                assert forall|j: int| 0 <= j < i implies !(#[trigger] front[j]).0
                    && !front[j].1 by {
                    assert(front[j] == races[j]);
                }
                assert(first_ready(front, i));
            }
        }
        if fate_after(fate_on_receipt(false, now, deadline), front) is Waiting {
            if !races.last().0 && races.last().1 {
                assert forall|j: int| 0 <= j < front.len() implies !(#[trigger] races[j]).0
                    && !races[j].1 by {
                    assert(front[j] == races[j]);
                }
                assert(first_ready(races, races.len() - 1));
            }
        }
    }
}

/// Look `i` is the first at which anything happened, and the service was ready at it while
/// the timer was quiet.
pub open spec fn first_ready(races: Seq<(bool, bool)>, i: int) -> bool {
    &&& 0 <= i < races.len()
    &&& !races[i].0
    &&& races[i].1
    &&& forall|j: int| 0 <= j < i ==> !(#[trigger] races[j]).0 && !races[j].1
}

/// A request is still waiting exactly where nothing happened so far.
proof fn lemma_waiting_saw_nothing(now: int, deadline: int, races: Seq<(bool, bool)>)
    ensures
        fate_after(fate_on_receipt(false, now, deadline), races) is Waiting <==> now < deadline && (
        forall|j: int| 0 <= j < races.len() ==> !(#[trigger] races[j]).0 && !races[j].1),
    decreases races.len(),
{
    if races.len() > 0 {
        let front = races.drop_last();
        lemma_waiting_saw_nothing(now, deadline, front);
        assert(forall|j: int| 0 <= j < front.len() ==> front[j] == races[j]);
        assert(races.last() == races[races.len() - 1]);
        if now < deadline && (forall|j: int|
            0 <= j < races.len() ==> !(#[trigger] races[j]).0 && !races[j].1) {
            assert(forall|j: int|
                0 <= j < front.len() ==> !(#[trigger] front[j]).0 && !front[j].1);
        }
    }
}

/// With a timer that fires on its deadline and not before, a request is dispatched only in
/// time and shed only when it is late.
pub proof fn law_a_punctual_timer_sheds_exactly_the_late(
    fired: bool,
    ready: bool,
    now: int,
    deadline: int,
)
    requires
        fired <==> now >= deadline,
    ensures
        fate_in_race(fired, ready) is Dispatched ==> now < deadline,
        fate_in_race(fired, ready) is Shed <==> now >= deadline,
{
}

/// A shed request waited out the limit it was enqueued with. The one exception is a
/// deadline that would lie beyond the last point in time there is.
pub proof fn law_a_shed_request_waited_out_its_limit<Req, Tx, T: Moment>(
    item: QueueItem<Req, Tx, T>,
    enqueued: T,
    us: int,
    now: T,
)
    requires
        item.stamped(enqueued, us),
        enqueued.after(item.limit) == enqueued.ns() + nanos(item.limit),
        now.ns() >= item.deadline.ns(),
    ensures
        item.waited(now) >= us * 1000,
{
    law_a_duration_waited_out_has_passed(enqueued, item.limit, now);
}

/// The deadline of a queued request falls exactly its limit after it was enqueued, on either
/// clock, unless that lies beyond the last point in time there is: a limit is a whole number
/// of microseconds.
pub proof fn law_queue_deadlines_are_exact<Req, Tx>(
    steady: QueueItem<Req, Tx, Steady>,
    at: Steady,
    virtual_item: QueueItem<Req, Tx, Instant>,
    now: Instant,
    us: int,
)
    requires
        steady.stamped(at, us),
        virtual_item.stamped(now, us),
        0 <= us,
        now@ >= 0,
    ensures
        at.ns() + us * 1000 <= longest() ==> steady.deadline.ns() == at.ns() + us * 1000,
        now@ + us <= u64::MAX ==> virtual_item.deadline.ns() == now.ns() + us * 1000,
{
    if now@ + us <= u64::MAX {
        law_virtual_deadlines_are_whole_microseconds(now, virtual_item.limit);
    }
}

/// A shed reports the limit the request raced, the one in force when it was enqueued,
/// whatever the timeout was retuned to while it waited.
pub proof fn law_a_shed_reports_the_limit_it_raced<Req, Tx, T: Moment>(
    item: QueueItem<Req, Tx, T>,
    enqueued: T,
    us: int,
    error: QueueError,
    waited: int,
)
    requires
        item.stamped(enqueued, us),
        error.is_timeout(waited, item.limit),
    ensures
        nanos(error->Timeout_limit) == us * 1000,
        nanos(error->Timeout_waited) == waited,
{
}

/// A request that came off the queue, and the looks at its timer and at the service that
/// followed.
pub struct Receipt {
    pub abandoned: bool,
    pub now: int,
    pub deadline: int,
    pub races: Seq<(bool, bool)>,
}

impl Receipt {
    /// What has become of it.
    pub open spec fn fate(self) -> Fate {
        fate_after(fate_on_receipt(self.abandoned, self.now, self.deadline), self.races)
    }

    /// Somebody waits for it, it came off the queue in time, and the service was ready for
    /// it before its timer was seen to fire.
    pub open spec fn in_time(self) -> bool {
        &&& !self.abandoned
        &&& self.now < self.deadline
        &&& exists|i: int| #[trigger] first_ready(self.races, i)
    }

    /// It left the queue without getting to the service.
    pub open spec fn passed_over(self) -> bool {
        self.fate() is Shed || self.fate() is Abandoned
    }
}

/// What serving one request came to.
pub enum Serving {
    /// The request with this place in line was handed over.
    Served(int),
    /// The request with this place in line is waited for.
    Waiting(int),
    /// The line is through, and nobody was handed over.
    Through,
}

/// The worker takes a line of requests from place `from` on, one after the other, until it
/// hands one over. It turns to the next one when the one before it has met its fate.
pub open spec fn serving(line: Seq<Receipt>, from: int) -> Serving
    decreases line.len() - from,
{
    if from >= line.len() {
        Serving::Through
    } else {
        match line[from].fate() {
            Fate::Dispatched => Serving::Served(from),
            Fate::Waiting => Serving::Waiting(from),
            Fate::Shed => serving(line, from + 1),
            Fate::Abandoned => serving(line, from + 1),
        }
    }
}

/// A request gets to the service exactly where it is in time.
pub proof fn law_dispatched_exactly_in_time(r: Receipt)
    ensures
        r.fate() is Dispatched <==> r.in_time(),
{
    if r.abandoned {
        law_an_abandoned_request_is_left_alone(r.now, r.deadline, r.races);
    } else {
        law_dispatch_needs_a_ready_service_before_the_timer(r.now, r.deadline, r.races);
    }
}

/// Requests are served in the order of the queue: the one handed over is the first that is
/// in time, and everyone before it was shed or abandoned. Where nobody is handed over, the
/// line is through and nobody was in time, or someone is waited for whom only such requests
/// precede.
pub proof fn law_the_first_in_time_is_served(line: Seq<Receipt>)
    ensures
        match serving(line, 0) {
            Serving::Served(i) => {
                &&& 0 <= i < line.len()
                &&& line[i].in_time()
                &&& forall|j: int|
                    0 <= j < i ==> (#[trigger] line[j]).passed_over() && !line[j].in_time()
            },
            Serving::Waiting(i) => {
                &&& 0 <= i < line.len()
                &&& line[i].fate() is Waiting
                &&& forall|j: int|
                    0 <= j < i ==> (#[trigger] line[j]).passed_over() && !line[j].in_time()
            },
            Serving::Through => forall|j: int|
                0 <= j < line.len() ==> (#[trigger] line[j]).passed_over() && !line[j].in_time(),
        },
{
    lemma_served_from(line, 0);
}

proof fn lemma_served_from(line: Seq<Receipt>, from: int)
    requires
        0 <= from <= line.len(),
    ensures
        match serving(line, from) {
            Serving::Served(i) => {
                &&& from <= i < line.len()
                &&& line[i].in_time()
                &&& forall|j: int|
                    from <= j < i ==> (#[trigger] line[j]).passed_over() && !line[j].in_time()
            },
            Serving::Waiting(i) => {
                &&& from <= i < line.len()
                &&& line[i].fate() is Waiting
                &&& forall|j: int|
                    from <= j < i ==> (#[trigger] line[j]).passed_over() && !line[j].in_time()
            },
            Serving::Through => forall|j: int|
                from <= j < line.len() ==> (#[trigger] line[j]).passed_over()
                    && !line[j].in_time(),
        },
    decreases line.len() - from,
{
    if from < line.len() {
        law_dispatched_exactly_in_time(line[from]);
        if line[from].passed_over() {
            lemma_served_from(line, from + 1);
        }
    }
}

} // verus!
