//! Immediate rejection.

use taipei::ready::Readiness;
use taipei::reject::{RejectError, RejectionLayer, ResponseFuture, Verdict};

/// Doubles what it is asked; ready or not as told.
#[derive(Clone)]
struct Gate {
    ready: bool,
}

impl Gate {
    fn probe(&self) -> Readiness<Broke> {
        if self.ready {
            Readiness::Ready
        } else {
            Readiness::Pending
        }
    }

    fn call(&self, req: u32) -> Result<u32, Broke> {
        Ok(req * 2)
    }
}

#[derive(Debug, PartialEq)]
struct Broke;

fn send(gate: Gate, req: u32) -> Result<u32, RejectError<Broke>> {
    let probe = gate.probe();
    let mut svc = RejectionLayer::new().layer(gate);
    svc.poll_ready(probe)?;
    let (future, polled) = match svc.call() {
        Verdict::Forward => (ResponseFuture::Inner { future: () }, Some(svc.inner.call(req))),
        Verdict::Shed => (ResponseFuture::Rejected, None),
    };
    future.poll(polled).unwrap()
}

#[test]
fn admits_when_inner_ready() {
    assert!(matches!(send(Gate { ready: true }, 21), Ok(42)));
}

#[test]
fn rejects_when_inner_not_ready() {
    let err = match send(Gate { ready: false }, 21) {
        Ok(_) => panic!("the call is shed because the inner gate was closed"),
        Err(e) => e,
    };
    assert!(matches!(err, RejectError::Overloaded));
    assert!(err.overloaded().is_some());
}

#[test]
fn a_broken_inner_surfaces_its_error_not_a_shed() {
    let mut svc = RejectionLayer::new().layer(());
    let err = match svc.poll_ready(Readiness::Failed(Broke)) {
        Ok(_) => panic!("a broken inner must not report ready-ok"),
        Err(e) => e,
    };
    assert!(err.overloaded().is_none());
    assert!(matches!(err, RejectError::Inner(Broke)), "the inner error, not Overloaded");
}

#[test]
fn readiness_is_spent_by_one_request() {
    let mut svc = RejectionLayer::default().layer(());
    assert!(matches!(svc.call(), Verdict::Shed), "nothing was probed yet");
    assert!(svc.poll_ready(Readiness::<Broke>::Ready).is_ok());
    let mut copy = svc.clone();
    assert!(matches!(copy.call(), Verdict::Shed), "a clone has probed nothing");
    assert!(matches!(svc.call(), Verdict::Forward));
    assert!(matches!(svc.call(), Verdict::Shed));
}

#[test]
fn the_most_recent_probe_is_the_one_that_counts() {
    let mut svc = RejectionLayer::new().layer(());
    assert!(svc.poll_ready(Readiness::<Broke>::Ready).is_ok());
    assert!(svc.poll_ready(Readiness::Failed(Broke)).is_err());
    assert!(matches!(svc.call(), Verdict::Shed), "the inner was not ready when last probed");
    assert!(svc.poll_ready(Readiness::<Broke>::Ready).is_ok());
    assert!(svc.poll_ready(Readiness::<Broke>::Pending).is_ok());
    assert!(matches!(svc.call(), Verdict::Shed));
    assert!(svc.poll_ready(Readiness::<Broke>::Pending).is_ok());
    assert!(svc.poll_ready(Readiness::<Broke>::Ready).is_ok());
    assert!(matches!(svc.call(), Verdict::Forward));
}

#[test]
fn the_answer_is_the_inner_one() {
    let inner = ResponseFuture::Inner { future: () };
    assert!(inner.poll::<u32, Broke>(None).is_none());
    assert!(matches!(inner.poll(Some(Err::<u32, _>(Broke))), Some(Err(RejectError::Inner(Broke)))));
    let shed = ResponseFuture::<()>::Rejected;
    assert!(matches!(shed.poll(Some(Ok::<u32, Broke>(1))), Some(Err(RejectError::Overloaded))));
}
