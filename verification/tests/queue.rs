//! Deadlines in the queue and after it.

use std::time::Duration;
use taipei::clock::Instant;
use taipei::moment::{Moment, Steady};
use taipei::queue::{
    default_timeout, FutureState, Next, QueueError, QueueItem, QueueLayer, QueueService,
    QueueServiceFuture, QueueTimeout, QueueWorker, Reply, Reservation, Step, Task,
    DEFAULT_CAPACITY,
};
use taipei::ready::Readiness;

type Worker = QueueWorker<&'static str, &'static str, u32, Instant>;
type Pending = QueueServiceFuture<&'static str, &'static str, Instant>;

fn us(n: u64) -> Duration {
    Duration::from_micros(n)
}

fn at(n: u64) -> Instant {
    Instant::from_micros(n)
}

fn parts(timeout: Duration) -> (QueueService, Worker, QueueTimeout) {
    QueueLayer::new(timeout).build("service")
}

fn item(
    service: &QueueService,
    timeout: &QueueTimeout,
    now: u64,
) -> QueueItem<&'static str, u32, Instant> {
    service.call(timeout, "req", 7, at(now))
}

#[test]
fn layers_start_from_their_defaults() {
    let l = QueueLayer::default();
    assert_eq!(l.queue_timeout.get(), Duration::from_millis(100));
    assert_eq!(default_timeout(), Duration::from_millis(100));
    assert_eq!(l.processing_timeout, None);
    assert_eq!(l.capacity, DEFAULT_CAPACITY);
    assert_eq!(DEFAULT_CAPACITY, 1 << 16);

    assert_eq!(QueueLayer::with_custom_queue_timeout(us(5)).queue_timeout.get(), us(5));
    assert_eq!(QueueLayer::with_custom_capacity(3).capacity, 3);
    let l = QueueLayer::new(us(9)).with_capacity(2).with_processing_timeout(us(4));
    assert_eq!((l.queue_timeout.get(), l.capacity, l.processing_timeout), (us(9), 2, Some(us(4))));
    let l = QueueLayer::builder()
        .with_custom_queue_timeout(us(1))
        .with_custom_capacity(6)
        .processing_timeout(us(2))
        .build();
    assert_eq!((l.queue_timeout.get(), l.capacity, l.processing_timeout), (us(1), 6, Some(us(2))));
    let (service, worker, timeout) = l.build::<_, (), (), Instant>("inner");
    assert_eq!((service.capacity, service.processing_timeout), (6, Some(us(2))));
    assert_eq!((worker.service, timeout.get()), ("inner", us(1)));
}

#[test]
fn a_timeout_is_kept_in_whole_microseconds() {
    let mut t = QueueTimeout::new(Duration::from_nanos(1_999));
    assert_eq!(t.get(), us(1));
    t.set(us(40));
    assert_eq!(t.get(), us(40));
    let mut l = QueueLayer::new(us(1));
    l.timeout().set(us(3));
    assert_eq!(l.queue_timeout.get(), us(3));
}

#[test]
fn a_request_is_dispatched_once_the_service_is_ready() {
    let (service, mut worker, timeout) = parts(us(100));
    let step = worker.received(Some(item(&service, &timeout, 0)), false, at(10));
    assert!(matches!(step, Step::Race { deadline } if deadline == at(100)));
    assert!(matches!(worker.raced(false, false, at(20)), Step::Race { .. }));
    assert!(matches!(worker.raced(false, true, at(30)), Step::Dispatch { req: "req", tx: 7 }));
    assert!(worker.waiting.is_none());
}

#[test]
fn a_late_request_is_shed_on_receipt() {
    let (service, mut worker, timeout) = parts(us(100));
    match worker.received(Some(item(&service, &timeout, 5)), false, at(105)) {
        Step::Shed { tx: 7, error: QueueError::Timeout { waited, limit } } => {
            assert_eq!((waited, limit), (us(100), us(100)));
        }
        _ => panic!("shed on its deadline"),
    }
    assert!(worker.waiting.is_none());
}

#[test]
fn the_deadline_wins_a_tie_with_readiness() {
    let (service, mut worker, timeout) = parts(us(100));
    worker.received(Some(item(&service, &timeout, 0)), false, at(0));
    match worker.raced(true, true, at(100)) {
        Step::Shed { tx: 7, error: QueueError::Timeout { waited, limit } } => {
            assert_eq!((waited, limit), (us(100), us(100)));
        }
        _ => panic!("shed"),
    }
}

#[test]
fn an_abandoned_request_is_skipped() {
    let (service, mut worker, timeout) = parts(us(100));
    let late = worker.received(Some(item(&service, &timeout, 0)), true, at(500));
    assert!(matches!(late, Step::Receive), "not even answered with a timeout");
    assert!(worker.waiting.is_none());
    assert!(matches!(worker.received(None, false, at(500)), Step::Close));
}

#[test]
fn retuning_spares_those_who_wait() {
    let (service, mut worker, mut timeout) = parts(us(100));
    let waiting = item(&service, &timeout, 0);
    timeout.set(us(10));
    let newcomer = item(&service, &timeout, 0);
    assert_eq!((waiting.deadline, newcomer.deadline), (at(100), at(10)));
    worker.received(Some(waiting), false, at(50));
    match worker.raced(true, false, at(100)) {
        Step::Shed { error: QueueError::Timeout { limit, .. }, .. } => assert_eq!(limit, us(100)),
        _ => panic!("shed by the limit it raced"),
    }
}

#[test]
fn readiness_is_a_place_in_the_queue() {
    let (service, _, _) = parts(us(1));
    assert!(matches!(service.poll_ready(Reservation::Reserved), Readiness::Ready));
    assert!(matches!(service.poll_ready(Reservation::Full), Readiness::Pending));
    assert!(matches!(
        service.clone().poll_ready(Reservation::Closed),
        Readiness::Failed(QueueError::ServerWorkerDropped)
    ));
}

#[test]
fn a_refused_request_reports_its_error_once() {
    let (service, _, _) = parts(us(1));
    let mut future: Pending = service.enqueued(false, "rx");
    assert!(matches!(
        future.poll::<(), ()>(),
        Next::Done(Err(QueueError::ServerWorkerDropped))
    ));
    assert!(matches!(
        future.poll::<(), ()>(),
        Next::Done(Err(QueueError::ServerRequestDropped))
    ));
}

#[test]
fn a_queued_request_follows_its_reply() {
    let (service, _, _) = parts(us(1));
    let mut future: Pending = service.enqueued(true, "rx");
    assert!(matches!(future.poll::<(), ()>(), Next::PollReply));
    assert!(matches!(future.replied::<(), ()>(Reply::Pending, at(0)), Next::Wait));
    assert!(matches!(
        future.replied::<(), ()>(Reply::Closed, at(0)),
        Next::Done(Err(QueueError::ServerRequestDropped))
    ));
    let error = QueueError::Timeout { waited: us(2), limit: us(1) };
    assert!(matches!(
        future.replied::<(), ()>(Reply::Shed(error), at(0)),
        Next::Done(Err(QueueError::Timeout { .. }))
    ));
}

#[test]
fn a_started_request_follows_its_task() {
    let mut future: Pending = QueueServiceFuture::queued("rx", None);
    assert!(matches!(future.replied::<u8, &str>(Reply::Started("task"), at(3)), Next::PollTask));
    assert!(matches!(future.poll::<u8, &str>(), Next::PollTask));
    assert!(matches!(future.ran::<u8, &str>(Task::Pending), Next::Wait), "no timer to look at");
    assert!(matches!(future.ran::<u8, &str>(Task::Finished(9)), Next::Done(Ok(9))));
    assert!(matches!(future.ran::<u8, &str>(Task::Panicked("boom")), Next::Unwind("boom")));
    assert!(matches!(
        future.ran::<u8, &str>(Task::Cancelled),
        Next::Done(Err(QueueError::ServerRequestDropped))
    ));
}

#[test]
fn processing_is_cut_off_at_its_limit() {
    let mut future: Pending = QueueServiceFuture::queued("rx", Some(us(50)));
    future.replied::<u8, ()>(Reply::Started("task"), at(1_000));
    match &future.state {
        FutureState::Started { handle: "task", sleep: Some(sleep), .. } => {
            assert_eq!(sleep.due, at(1_050));
        }
        _ => panic!("started with a timer"),
    }
    assert!(matches!(future.ran::<u8, ()>(Task::Pending), Next::PollTimer));
    assert!(matches!(future.timed::<u8, ()>(false, at(1_049)), Next::Wait));
    match future.timed::<u8, ()>(true, at(1_060)) {
        Next::Done(Err(QueueError::ProcessingTimeout { processed, limit })) => {
            assert_eq!((processed, limit), (us(60), us(50)));
        }
        _ => panic!("cut off"),
    }
    assert!(
        matches!(future.ran::<u8, ()>(Task::Finished(1)), Next::Done(Ok(1))),
        "a response that is there is taken whatever the timer says"
    );
}

#[test]
fn a_failed_enqueue_keeps_its_own_error() {
    let mut future: Pending = QueueServiceFuture::error(QueueError::ServerRequestDropped);
    assert!(matches!(
        future.poll::<(), ()>(),
        Next::Done(Err(QueueError::ServerRequestDropped))
    ));
}

#[test]
fn the_first_request_in_time_is_served() {
    let (service, mut worker, timeout) = parts(us(100));
    let line = [0, 0, 150].map(|now| item(&service, &timeout, now));
    let [late, gone, first] = line;
    assert!(matches!(worker.received(Some(late), false, at(200)), Step::Shed { .. }));
    assert!(matches!(worker.received(Some(gone), true, at(200)), Step::Receive));
    assert!(matches!(worker.received(Some(first), false, at(200)), Step::Race { .. }));
    assert!(matches!(worker.raced(false, true, at(210)), Step::Dispatch { .. }));
}

#[test]
fn the_steady_clock_is_exact_to_the_nanosecond() {
    let on = |ns: u64| Steady::at(Duration::from_nanos(ns));
    let (service, mut worker, timeout): (_, QueueWorker<&str, &str, u32, Steady>, _) =
        QueueLayer::new(us(1)).with_processing_timeout(Duration::from_nanos(7)).build("service");
    let step = worker.received(Some(service.call(&timeout, "req", 7, on(250))), false, on(1_249));
    assert!(matches!(step, Step::Race { deadline } if deadline.since_epoch().as_nanos() == 1_250));
    match worker.raced(true, false, on(1_253)) {
        Step::Shed { error: QueueError::Timeout { waited, limit }, .. } => {
            assert_eq!((waited, limit), (Duration::from_nanos(1_003), us(1)));
        }
        _ => panic!("shed"),
    }
    let late = worker.received(Some(service.call(&timeout, "req", 7, on(250))), false, on(1_250));
    assert!(matches!(late, Step::Shed { .. }));

    let mut future: QueueServiceFuture<&str, &str, Steady> = service.enqueued(true, "rx");
    future.replied::<u8, ()>(Reply::Started("task"), on(11));
    match &future.state {
        FutureState::Started { sleep: Some(sleep), .. } => {
            assert_eq!(sleep.due.since_epoch(), Duration::from_nanos(18));
        }
        _ => panic!("started with a timer"),
    }
    match future.timed::<u8, ()>(true, on(20)) {
        Next::Done(Err(QueueError::ProcessingTimeout { processed, limit })) => {
            assert_eq!(
                (processed, limit),
                (Duration::from_nanos(9), Duration::from_nanos(7))
            );
        }
        _ => panic!("cut off"),
    }
}

#[test]
fn points_in_time_end_where_their_clock_does() {
    assert_eq!(at(u64::MAX).plus(us(1)), at(u64::MAX));
    assert_eq!(at(3).plus(Duration::from_nanos(1_999)), at(4));
    assert_eq!(at(3).since(at(1)), us(2));
    assert_eq!(at(1).since(at(3)), Duration::ZERO);
    assert!(at(3).reached(at(3)) && !at(2).reached(at(3)));

    let last = Steady::at(Duration::MAX);
    assert_eq!(last.plus(us(1)).since_epoch(), Duration::MAX);
    assert_eq!(Duration::MAX.as_nanos(), u64::MAX as u128 * 1_000_000_000 + 999_999_999);
    assert_eq!(Steady::at(us(1)).since(last), Duration::ZERO);
    assert!(last.reached(Steady::at(us(1))) && !Steady::at(us(1)).reached(last));
}
